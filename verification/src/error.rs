//! Errors of a passthrough device.

use vstd::prelude::*;

use crate::allocator::AllocError;

verus! {

/// An error of the operating system, or one that stands for it.
#[derive(Debug, PartialEq, Eq)]
pub enum IoError {
    /// An error number of the operating system.
    Os(i32),
    /// Any other error, with its message.
    Other(String),
}

/// Errors that can occur while building or driving a passthrough device.
#[derive(Debug, PartialEq, Eq)]
pub enum VfioPciError {
    /// The device does not expose an MSI-X capability, which is required for interrupt delivery.
    MissingMsix,
    /// Failed to allocate guest address space for a BAR.
    BarAllocation(AllocError),
    /// Failed to mmap a BAR region.
    Mmap(IoError),
    /// Ran out of KVM memory slots while mapping device BARs.
    NotEnoughKvmSlots,
    /// Failed to register a BAR as a KVM memory region, with the message of the failure.
    RegisterMemoryRegion(String),
    /// Failed to program the device's MSI-X interrupts, with the message of the failure.
    Interrupt(String),
}

} // verus!
