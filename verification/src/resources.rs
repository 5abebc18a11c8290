//! Assigning a host PCI device to the guest.
//!
//! Before the guest can drive a device, four calls to the host must succeed, one after the other:
//! a KVM-VFIO pseudo device is created, so that KVM knows of the assigned device; an IOMMU
//! container is coupled to it; the device is opened in that container; and the whole guest memory
//! is mapped into the container for DMA.

use vstd::prelude::*;

use crate::region::RegionInfo;

verus! {

/// Errors that can occur while setting up a VFIO passthrough device, with the message of the
/// failure.
#[derive(Debug, PartialEq, Eq)]
pub enum VfioError {
    /// Failed to create the KVM VFIO pseudo device.
    CreateKvmDevice(String),
    /// Failed to create the VFIO container.
    CreateContainer(String),
    /// Failed to open the VFIO device at a path.
    OpenDevice(String, String),
    /// Failed to map guest memory into the IOMMU for DMA.
    DmaMap(String),
    /// Failed to unmap guest memory from the IOMMU.
    DmaUnmap(String),
}

/// A physical PCI device assigned to the guest through VFIO.
#[derive(Debug, PartialEq, Eq)]
pub struct VfioPciResources {
    /// The host sysfs path of the assigned device, e.g. `/sys/bus/pci/devices/0000:01:00.0`.
    pub path: String,
    /// What the kernel reports about each BAR, by its index. BARs past the end do not exist.
    pub regions: Vec<RegionInfo>,
}

/// How far the assignment of a device has come.
#[derive(Debug, PartialEq, Eq)]
pub enum Assignment {
    /// The KVM-VFIO pseudo device is to be created.
    CreateKvmDevice,
    /// The IOMMU container is to be created and coupled to KVM.
    CreateContainer,
    /// The device is to be opened in the container.
    OpenDevice,
    /// The guest memory is to be mapped into the container for the device with these BARs.
    MapGuestMemory(Vec<RegionInfo>),
    /// The device is assigned.
    Assigned(VfioPciResources),
}

/// How the call that an assignment waits for came out.
#[derive(Debug, PartialEq, Eq)]
pub enum AssignEvent {
    /// The pseudo device or the container was created, or the guest memory was mapped.
    Done,
    /// The device was opened, and has these BARs.
    Opened(Vec<RegionInfo>),
    /// The call failed, with the message of the failure.
    Failed(String),
}

/// Whether `event` can follow on `stage`.
pub open spec fn assign_event_fits(stage: Assignment, event: AssignEvent) -> bool {
    match event {
        AssignEvent::Done => stage is CreateKvmDevice || stage is CreateContainer
            || stage is MapGuestMemory,
        AssignEvent::Opened(_) => stage is OpenDevice,
        AssignEvent::Failed(_) => !(stage is Assigned),
    }
}

/// Whether `event` takes the assignment of the device at `path` from `stage` to `next`, or makes it
/// fail: each call follows on the one before it, and a call that fails ends the assignment with the
/// error of that call.
pub open spec fn assign_step(
    path: Seq<char>,
    stage: Assignment,
    event: AssignEvent,
    next: Result<Assignment, VfioError>,
) -> bool {
    match stage {
        Assignment::CreateKvmDevice => match event {
            AssignEvent::Failed(message) => next == Err::<Assignment, VfioError>(
                VfioError::CreateKvmDevice(message),
            ),
            _ => next == Ok::<Assignment, VfioError>(Assignment::CreateContainer),
        },
        Assignment::CreateContainer => match event {
            AssignEvent::Failed(message) => next == Err::<Assignment, VfioError>(
                VfioError::CreateContainer(message),
            ),
            _ => next == Ok::<Assignment, VfioError>(Assignment::OpenDevice),
        },
        Assignment::OpenDevice => match event {
            AssignEvent::Failed(message) => next matches Err(VfioError::OpenDevice(text, at))
                && text == message && at@ == path,
            AssignEvent::Opened(regions) => next == Ok::<Assignment, VfioError>(
                Assignment::MapGuestMemory(regions),
            ),
            AssignEvent::Done => false,
        },
        Assignment::MapGuestMemory(regions) => match event {
            AssignEvent::Failed(message) => next == Err::<Assignment, VfioError>(
                VfioError::DmaMap(message),
            ),
            _ => next matches Ok(Assignment::Assigned(resources)) && resources.path@ == path
                && resources.regions == regions,
        },
        Assignment::Assigned(_) => false,
    }
}

/// Whether `stages` are those that the assignment of the device at `path` goes through, each led
/// to by an event.
pub open spec fn is_assignment(
    path: Seq<char>,
    stages: Seq<Assignment>,
    events: Seq<AssignEvent>,
) -> bool {
    &&& stages.len() == events.len() + 1
    &&& stages[0] is CreateKvmDevice
    &&& forall|k: int|
        #![trigger events[k]]
        0 <= k < events.len() ==> assign_event_fits(stages[k], events[k]) && assign_step(
            path,
            stages[k],
            events[k],
            Ok(stages[k + 1]),
        )
}

/// A device is assigned only after all four calls have succeeded, one after the other: the pseudo
/// device was created, the container was created, the device was opened, and the guest memory was
/// mapped. It is then the device at the path, with the BARs that it was opened with.
pub proof fn law_assigned_after_every_call(
    path: Seq<char>,
    stages: Seq<Assignment>,
    events: Seq<AssignEvent>,
)
    requires
        is_assignment(path, stages, events),
        stages.last() is Assigned,
    ensures
        events.len() == 4,
        events[0] is Done,
        events[1] is Done,
        events[2] is Opened,
        events[3] is Done,
        stages.last()->Assigned_0.path@ == path,
        stages.last()->Assigned_0.regions == events[2]->Opened_0,
{
    assert(events.len() > 0);
    assert(assign_event_fits(stages[0], events[0]));
    assert(events.len() > 1);
    assert(assign_event_fits(stages[1], events[1]));
    assert(events.len() > 2);
    assert(assign_event_fits(stages[2], events[2]));
    assert(events.len() > 3);
    assert(assign_event_fits(stages[3], events[3]));
    if events.len() > 4 {
        assert(assign_event_fits(stages[4], events[4]));
    }
}

impl VfioPciResources {
    /// The resources of the device at `path` with these BARs.
    pub fn new(path: String, regions: Vec<RegionInfo>) -> (resources: Self)
        ensures
            resources.path == path,
            resources.regions == regions,
    {
        VfioPciResources { path, regions }
    }

    /// What the kernel reports as the size of BAR `index`.
    pub open spec fn region_size(self, index: int) -> u64 {
        if 0 <= index < self.regions@.len() {
            self.regions@[index].size
        } else {
            0
        }
    }

    /// Takes the assignment of the device at `sysfs_path` one call further, or says which call
    /// made it fail.
    pub fn advance(sysfs_path: &str, stage: Assignment, event: AssignEvent) -> (next: Result<
        Assignment,
        VfioError,
    >)
        requires
            assign_event_fits(stage, event),
        ensures
            assign_step(sysfs_path@, stage, event, next),
    {
        match event {
            AssignEvent::Failed(message) => match stage {
                Assignment::CreateKvmDevice => Err(VfioError::CreateKvmDevice(message)),
                Assignment::CreateContainer => Err(VfioError::CreateContainer(message)),
                Assignment::OpenDevice => Err(
                    VfioError::OpenDevice(message, sysfs_path.to_string()),
                ),
                Assignment::MapGuestMemory(_) => Err(VfioError::DmaMap(message)),
                Assignment::Assigned(resources) => Ok(Assignment::Assigned(resources)),
            },
            AssignEvent::Opened(regions) => Ok(Assignment::MapGuestMemory(regions)),
            AssignEvent::Done => match stage {
                Assignment::CreateKvmDevice => Ok(Assignment::CreateContainer),
                Assignment::MapGuestMemory(regions) => Ok(
                    Assignment::Assigned(VfioPciResources::new(sysfs_path.to_string(), regions)),
                ),
                _ => Ok(Assignment::OpenDevice),
            },
        }
    }
}

/// A call that fails ends the assignment with the error of that call, which carries the message of
/// the failure, and where the device cannot be opened its path; and only a call that fails does.
pub proof fn law_failed_call_ends_the_assignment(
    path: Seq<char>,
    stage: Assignment,
    event: AssignEvent,
    next: Result<Assignment, VfioError>,
)
    requires
        assign_event_fits(stage, event),
        assign_step(path, stage, event, next),
    ensures
        next is Err <==> event is Failed,
        next matches Err(error) ==> match error {
            VfioError::CreateKvmDevice(message) => stage is CreateKvmDevice && event
                == AssignEvent::Failed(message),
            VfioError::CreateContainer(message) => stage is CreateContainer && event
                == AssignEvent::Failed(message),
            VfioError::OpenDevice(message, at) => stage is OpenDevice && event
                == AssignEvent::Failed(message) && at@ == path,
            VfioError::DmaMap(message) => stage is MapGuestMemory && event == AssignEvent::Failed(
                message,
            ),
            VfioError::DmaUnmap(_) => false,
        },
{
}

} // verus!
