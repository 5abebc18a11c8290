//! Mapping one area of a VFIO region into the guest.
//!
//! An area is mapped in three calls to the host: the file of the device is mapped, a KVM memory
//! slot is taken, and the mapping is registered in that slot. [`mmap_area`] says which call comes
//! next, given how the last one came out.

use vstd::prelude::*;

use crate::error::{IoError, VfioPciError};
use crate::region::{AreaRequest, BarMmap};

verus! {

/// Flag of a mapping whose writes reach the device.
pub const MAP_SHARED: i32 = 1;

/// A call of `mmap` on the file of the device, at an address that the kernel chooses.
#[derive(Debug, Clone, Copy, PartialEq, Eq, Structural)]
pub struct MmapCall {
    /// Length of the mapping in bytes.
    pub length: usize,
    /// Protection of the mapping.
    pub prot: i32,
    /// Flags of the mapping.
    pub flags: i32,
    /// Offset in the file of the device.
    pub offset: i64,
}

/// A memory region of the guest, as KVM takes it.
#[derive(Debug, Clone, Copy, PartialEq, Eq, Structural)]
pub struct KvmMemoryRegion {
    /// The memory slot.
    pub slot: u32,
    /// Flags of the slot.
    pub flags: u32,
    /// Guest physical address of the region.
    pub guest_phys_addr: u64,
    /// Size of the region in bytes.
    pub memory_size: u64,
    /// Host virtual address that backs the region.
    pub userspace_addr: u64,
}

/// How far the mapping of an area has come.
#[derive(Debug, Clone, Copy, PartialEq, Eq, Structural)]
pub enum AreaProgress {
    /// No call was made yet.
    Fresh,
    /// The file of the device is being mapped.
    Mapping,
    /// A memory slot is being taken for the mapping at `host_addr`.
    Slotting { host_addr: u64 },
    /// The mapping at `host_addr` is being registered in `slot`.
    Registering { host_addr: u64, slot: u32 },
    /// The area is mapped, or cannot be.
    Closed,
}

/// How the last call came out.
#[derive(Debug, PartialEq, Eq)]
pub enum AreaEvent {
    /// No call was made yet.
    Begin,
    /// The file was mapped at an address, or was not.
    Mmap(Result<u64, IoError>),
    /// A memory slot was taken, or none was left.
    Slot(Option<u32>),
    /// The region was registered, or was not, with the message of the failure.
    Registered(Result<(), String>),
}

/// What is to be done next.
#[derive(Debug, PartialEq, Eq)]
pub enum AreaStep {
    /// Map the file of the device.
    Mmap(MmapCall),
    /// Take the next memory slot.
    NextSlot,
    /// Register a memory region.
    Register(KvmMemoryRegion),
    /// Nothing: the area is mapped.
    Mapped(BarMmap),
    /// Nothing but, where an address and a length are given, to unmap what was mapped there: the
    /// area cannot be mapped.
    Failed { error: VfioPciError, unmap: Option<(u64, usize)> },
}

/// Whether `event` can follow on `progress`.
pub open spec fn event_fits(progress: AreaProgress, event: AreaEvent) -> bool {
    match event {
        AreaEvent::Begin => progress is Fresh,
        AreaEvent::Mmap(_) => progress is Mapping,
        AreaEvent::Slot(_) => progress is Slotting,
        AreaEvent::Registered(_) => progress is Registering,
    }
}

/// Whether the area can be handed to `mmap`.
pub open spec fn callable(request: AreaRequest) -> bool {
    request.length <= usize::MAX && request.file_offset <= i64::MAX
}

/// Whether `step` is an error of `mmap` with this message.
pub open spec fn refused(step: AreaStep, message: Seq<char>) -> bool {
    step matches AreaStep::Failed { error: VfioPciError::Mmap(IoError::Other(text)), unmap }
        && text@ == message && unmap is None
}

/// Whether `step` is what is to be done next, and `after` how far the mapping has then come.
pub open spec fn area_step(
    request: AreaRequest,
    progress: AreaProgress,
    event: AreaEvent,
    after: AreaProgress,
    step: AreaStep,
) -> bool {
    match event {
        AreaEvent::Begin => if request.length > usize::MAX {
            after is Closed && refused(step, "BAR mapping length overflows usize"@)
        } else if request.file_offset > i64::MAX {
            after is Closed && refused(step, "BAR mapping offset overflows off_t"@)
        } else {
            after is Mapping && step == AreaStep::Mmap(
                MmapCall {
                    length: request.length as usize,
                    prot: request.prot,
                    flags: MAP_SHARED,
                    offset: request.file_offset as i64,
                },
            )
        },
        AreaEvent::Mmap(Ok(host_addr)) => after == (AreaProgress::Slotting { host_addr }) && step
            == AreaStep::NextSlot,
        AreaEvent::Mmap(Err(error)) => after is Closed && step == (AreaStep::Failed {
            error: VfioPciError::Mmap(error),
            unmap: None,
        }),
        AreaEvent::Slot(Some(slot)) => after == (AreaProgress::Registering {
            host_addr: progress->Slotting_host_addr,
            slot,
        }) && step == AreaStep::Register(
            KvmMemoryRegion {
                slot,
                flags: 0,
                guest_phys_addr: request.guest_addr,
                memory_size: request.length,
                userspace_addr: progress->Slotting_host_addr,
            },
        ),
        AreaEvent::Slot(None) => after is Closed && step == (AreaStep::Failed {
            error: VfioPciError::NotEnoughKvmSlots,
            unmap: Some((progress->Slotting_host_addr, request.length as usize)),
        }),
        AreaEvent::Registered(Ok(_)) => after is Closed && step == AreaStep::Mapped(
            BarMmap {
                host_addr: progress->Registering_host_addr,
                length: request.length as usize,
                guest_addr: request.guest_addr,
                slot: progress->Registering_slot,
            },
        ),
        AreaEvent::Registered(Err(message)) => after is Closed && step == (AreaStep::Failed {
            error: VfioPciError::RegisterMemoryRegion(message),
            unmap: Some((progress->Registering_host_addr, request.length as usize)),
        }),
    }
}

/// The host address at which an area is mapped, once it is.
pub open spec fn mapped_at(progress: AreaProgress) -> Option<u64> {
    match progress {
        AreaProgress::Slotting { host_addr } => Some(host_addr),
        AreaProgress::Registering { host_addr, slot } => Some(host_addr),
        _ => None,
    }
}

/// An area that cannot be mapped leaves nothing mapped: what `mmap` had mapped for it is to be
/// unmapped, and nothing else is.
pub proof fn law_failed_area_leaves_nothing_mapped(
    request: AreaRequest,
    progress: AreaProgress,
    event: AreaEvent,
    after: AreaProgress,
    step: AreaStep,
)
    requires
        event_fits(progress, event),
        area_step(request, progress, event, after, step),
        step is Failed,
    ensures
        match mapped_at(progress) {
            Some(host_addr) => step->unmap == Some((host_addr, request.length as usize)),
            None => step->unmap is None,
        },
{
}

/// Says what is to be done next to map a sub-area of a VFIO region and register it as a KVM memory
/// region, and how far the mapping has then come.
pub fn mmap_area(request: &AreaRequest, progress: AreaProgress, event: AreaEvent) -> (next: (
    AreaProgress,
    AreaStep,
))
    requires
        event_fits(progress, event),
        !(event is Begin) ==> callable(*request),
    ensures
        area_step(*request, progress, event, next.0, next.1),
        next.0 is Mapping ==> callable(*request),
{
    match event {
        AreaEvent::Begin => {
            if request.length > usize::MAX as u64 {
                let error = IoError::Other("BAR mapping length overflows usize".to_string());
                return (
                    AreaProgress::Closed,
                    AreaStep::Failed { error: VfioPciError::Mmap(error), unmap: None },
                );
            }
            if request.file_offset > i64::MAX as u64 {
                let error = IoError::Other("BAR mapping offset overflows off_t".to_string());
                return (
                    AreaProgress::Closed,
                    AreaStep::Failed { error: VfioPciError::Mmap(error), unmap: None },
                );
            }
            let call = MmapCall {
                length: request.length as usize,
                prot: request.prot,
                flags: MAP_SHARED,
                offset: request.file_offset as i64,
            };
            (AreaProgress::Mapping, AreaStep::Mmap(call))
        },
        AreaEvent::Mmap(Ok(host_addr)) => {
            (AreaProgress::Slotting { host_addr }, AreaStep::NextSlot)
        },
        AreaEvent::Mmap(Err(error)) => {
            (
                AreaProgress::Closed,
                AreaStep::Failed { error: VfioPciError::Mmap(error), unmap: None },
            )
        },
        AreaEvent::Slot(slot) => {
            let host_addr: u64 = match progress {
                AreaProgress::Slotting { host_addr } => host_addr,
                _ => 0,
            };
            match slot {
                Some(slot) => {
                    let region = KvmMemoryRegion {
                        slot,
                        flags: 0,
                        guest_phys_addr: request.guest_addr,
                        memory_size: request.length,
                        userspace_addr: host_addr,
                    };
                    (AreaProgress::Registering { host_addr, slot }, AreaStep::Register(region))
                },
                None => {
                    let error = VfioPciError::NotEnoughKvmSlots;
                    let unmap = Some((host_addr, request.length as usize));
                    (AreaProgress::Closed, AreaStep::Failed { error, unmap })
                },
            }
        },
        AreaEvent::Registered(outcome) => {
            let (host_addr, slot): (u64, u32) = match progress {
                AreaProgress::Registering { host_addr, slot } => (host_addr, slot),
                _ => (0, 0),
            };
            let length = request.length as usize;
            match outcome {
                Ok(_) => {
                    let mmap = BarMmap { host_addr, length, guest_addr: request.guest_addr, slot };
                    (AreaProgress::Closed, AreaStep::Mapped(mmap))
                },
                Err(message) => {
                    let error = VfioPciError::RegisterMemoryRegion(message);
                    let unmap = Some((host_addr, length));
                    (AreaProgress::Closed, AreaStep::Failed { error, unmap })
                },
            }
        },
    }
}

/// An area is mapped by three calls that carry the numbers of its request, as integers: the file of
/// the device is mapped shared at the offset of the area, with its length and protection; a slot is
/// taken; and the memory at the address that came back is registered in the slot that came back, at
/// the guest address of the area and with its length. The mapping is then just that.
pub proof fn law_area_is_mapped_as_requested(
    request: AreaRequest,
    host_addr: u64,
    slot: u32,
    progress: (AreaProgress, AreaProgress, AreaProgress, AreaProgress),
    steps: (AreaStep, AreaStep, AreaStep, AreaStep),
)
    requires
        request.length <= usize::MAX,
        request.file_offset <= i64::MAX,
        area_step(request, AreaProgress::Fresh, AreaEvent::Begin, progress.0, steps.0),
        area_step(request, progress.0, AreaEvent::Mmap(Ok(host_addr)), progress.1, steps.1),
        area_step(request, progress.1, AreaEvent::Slot(Some(slot)), progress.2, steps.2),
        area_step(request, progress.2, AreaEvent::Registered(Ok(())), progress.3, steps.3),
    ensures
        steps.0 matches AreaStep::Mmap(call) && call.offset as int == request.file_offset as int
            && call.length as int == request.length as int && call.prot == request.prot && call.flags
            == 1,
        steps.1 is NextSlot,
        steps.2 matches AreaStep::Register(region) && region.slot == slot && region.flags == 0
            && region.guest_phys_addr == request.guest_addr && region.memory_size
            == request.length && region.userspace_addr == host_addr,
        steps.3 matches AreaStep::Mapped(mmap) && mmap.host_addr == host_addr && mmap.length as int
            == request.length as int && mmap.guest_addr == request.guest_addr && mmap.slot == slot,
        progress.0 is Mapping,
        progress.1 is Slotting,
        progress.2 is Registering,
        progress.3 is Closed,
{
}

/// Mapping an area fails exactly where a call fails or its numbers do not fit the call, and for that
/// reason: a length past `usize` first, then an offset past `off_t`, the error of `mmap`, no slot
/// left, or the message of the failed registration.
pub proof fn law_area_fails_for_its_reason(
    request: AreaRequest,
    progress: AreaProgress,
    event: AreaEvent,
    after: AreaProgress,
    step: AreaStep,
)
    requires
        event_fits(progress, event),
        area_step(request, progress, event, after, step),
    ensures
        step is Failed <==> match event {
            AreaEvent::Begin => request.length as int > usize::MAX as int
                || request.file_offset as int > i64::MAX as int,
            AreaEvent::Mmap(outcome) => outcome is Err,
            AreaEvent::Slot(slot) => slot is None,
            AreaEvent::Registered(outcome) => outcome is Err,
        },
        step is Mapped <==> (event matches AreaEvent::Registered(Ok(_))),
        after is Closed <==> step is Failed || step is Mapped,
        step matches AreaStep::Failed { error, unmap } ==> match event {
            AreaEvent::Begin => error matches VfioPciError::Mmap(IoError::Other(text)) && text@ == (
            if request.length as int > usize::MAX as int {
                "BAR mapping length overflows usize"@
            } else {
                "BAR mapping offset overflows off_t"@
            }),
            AreaEvent::Mmap(Err(cause)) => error == VfioPciError::Mmap(cause),
            AreaEvent::Slot(_) => error is NotEnoughKvmSlots,
            AreaEvent::Registered(Err(message)) => error == VfioPciError::RegisterMemoryRegion(
                message,
            ),
            _ => false,
        },
{
}

} // verus!
