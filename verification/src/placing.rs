//! What each step of setting up the BARs does, in the numbers that the device and the kernel report.

use vstd::prelude::*;

use crate::align;
use crate::allocator;
use crate::bars;
use crate::bars::{BarSetup, SetupAction, SetupEvent, SetupState};
use crate::error::VfioPciError;
use crate::mapping;
use crate::mapping::{AreaEvent, AreaProgress, AreaStep};
use crate::msix::MsixLayout;
use crate::region::{BarPrefetchable, PciBarType};
use crate::resources::VfioPciResources;

verus! {

/// Whether the register of a memory BAR says that it has 64 bits: bit 2 is set and bit 1 is clear.
pub open spec fn says_64_bit(bar_cfg: u32) -> bool {
    bar_cfg / 4 % 2 == 1 && bar_cfg / 2 % 2 == 0
}

/// An IO BAR, whose register has bit 0 set, is skipped: nothing is given to it, and the setup goes
/// on behind it.
pub proof fn law_io_bar_is_skipped(
    resources: VfioPciResources,
    layout: MsixLayout,
    page_size: u64,
    before: SetupState,
    bar_cfg: u32,
    after: SetupState,
    action: SetupAction,
)
    requires
        before.setup is Config,
        bars::setup_step(
            resources,
            layout,
            page_size,
            before,
            SetupEvent::ConfigDword(bar_cfg),
            after,
            action,
        ),
        bar_cfg % 2 == 1,
    ensures
        after.bars == before.bars,
        after.regions == before.regions,
        after.same_windows(before),
        action is ReadConfig || action is Done,
{
    bars::law_bar_register_bits(bar_cfg, bar_cfg);
}

/// A memory BAR is set as its register says and as large as the kernel reports, at the lowest
/// multiple of its size at which its window has room: the 64-bit window where its register says
/// that it has 64 bits, else the 32-bit one. Exactly its addresses are then taken in that window,
/// and the other window stays as it was. Nothing but a lack of room, or a size that is no power of
/// two, leaves it without an address.
pub proof fn law_memory_bar_is_placed(
    resources: VfioPciResources,
    layout: MsixLayout,
    page_size: u64,
    before: SetupState,
    bar_cfg: u32,
    after: SetupState,
    action: SetupAction,
    a: int,
)
    requires
        before.setup is Config,
        bars::setup_wf(resources, layout, page_size, before.setup),
        bars::setup_step(
            resources,
            layout,
            page_size,
            before,
            SetupEvent::ConfigDword(bar_cfg),
            after,
            action,
        ),
        bar_cfg % 2 == 0,
        allocator::nodes_apart(before.nodes32),
        allocator::nodes_apart(before.nodes64),
        before.nodes32.len() < allocator::TREE_NODES,
        before.nodes64.len() < allocator::TREE_NODES,
    ensures
        ({
            let i = before.setup->bar_index as int;
            let size = resources.regions@[i].size;
            let wide = says_64_bit(bar_cfg);
            let (window, window_after) = if wide {
                (before.nodes64, after.nodes64)
            } else {
                (before.nodes32, after.nodes32)
            };
            let possible = align::is_power_of_two(size) && a % (size as int) == 0
                && allocator::has_room(window, a, size as int) && a + size <= u64::MAX;
            &&& after.regions == before.regions
            &&& wide ==> after.nodes32 == before.nodes32
            &&& !wide ==> after.nodes64 == before.nodes64
            &&& match action {
                SetupAction::ProgramBar(setting) => {
                    &&& setting.bar_idx == i
                    &&& setting.size == size
                    &&& setting.bar_type == PciBarType::Memory64 <==> wide
                    &&& setting.prefetchable == BarPrefetchable::Yes <==> bar_cfg / 8 % 2 == 1
                    &&& setting.guest_addr as int % size as int == 0
                    &&& setting.guest_addr + size <= u64::MAX
                    &&& allocator::has_room(window, setting.guest_addr as int, size as int)
                    &&& possible ==> setting.guest_addr <= a
                    &&& allocator::address_is(window_after, true, a) <==> allocator::address_is(
                        window,
                        true,
                        a,
                    ) && !(setting.guest_addr <= a < setting.guest_addr + size)
                    &&& allocator::address_is(window_after, false, a) <==> allocator::address_is(
                        window,
                        false,
                        a,
                    ) || setting.guest_addr <= a < setting.guest_addr + size
                    &&& after.bars == before.bars.push(setting)
                    &&& after.setup matches BarSetup::Program { region }
                    &&& region.index == i
                    &&& region.guest_addr == setting.guest_addr
                    &&& region.size == size
                    &&& region.bar_type == PciBarType::Memory64 <==> wide
                    &&& region.mmaps@.len() == 0
                },
                SetupAction::Failed { error, unmap } => {
                    &&& error is BarAllocation
                    &&& unmap@.len() == 0
                    &&& !possible
                    &&& after.bars == before.bars
                    &&& window_after == window
                    &&& after.setup is Finished
                },
                _ => false,
            }
        }),
{
    let i = before.setup->bar_index as int;
    let size = resources.regions@[i].size;
    let wide = says_64_bit(bar_cfg);
    let window = if wide {
        before.nodes64
    } else {
        before.nodes32
    };
    bars::law_bar_register_bits(bar_cfg, bar_cfg);
    if align::is_power_of_two(size) {
        allocator::law_given_address_is_lowest(window, size, size, a);
    }
    if let SetupAction::ProgramBar(setting) = action {
        allocator::law_given_range_alone_is_taken(window, size, size, a);
        allocator::law_given_address_is_aligned(window, size, size);
    }
}

/// The slot that a step looks on from for the next BAR, where it does: the first one at the start,
/// the one behind an IO BAR, and the one or two behind a BAR that is mapped.
pub open spec fn looks_on_from(before: SetupState, event: SetupEvent) -> int {
    match event {
        SetupEvent::Begin => 0,
        SetupEvent::ConfigDword(_) => before.setup->bar_index + 1,
        _ => {
            let region = if before.setup is Program {
                before.setup->Program_region
            } else {
                before.setup->Mapping_region
            };
            if region.bar_type == PciBarType::Memory64 {
                region.index + 2
            } else {
                region.index + 1
            }
        },
    }
}

/// The BAR whose register is read next is the first one behind that the kernel reports a size for,
/// and its register is the dword at 0x10 plus four for each slot before it. The setup is done only
/// where the kernel reports no size for any slot behind.
pub proof fn law_next_register_is_read(
    resources: VfioPciResources,
    layout: MsixLayout,
    page_size: u64,
    before: SetupState,
    event: SetupEvent,
    after: SetupState,
    action: SetupAction,
    j: int,
)
    requires
        bars::setup_wf(resources, layout, page_size, before.setup),
        bars::setup_event_fits(before.setup, event),
        bars::setup_step(resources, layout, page_size, before, event, after, action),
        action is ReadConfig || action is Done,
    ensures
        ({
            let from = looks_on_from(before, event);
            let reported = 0 <= j < 6 && j < resources.regions@.len() && resources.regions@[j].size
                > 0;
            match action {
                SetupAction::ReadConfig { offset } => {
                    &&& after.setup matches BarSetup::Config { bar_index }
                    &&& offset as int == 0x10 + 4 * bar_index
                    &&& from <= bar_index < 6
                    &&& resources.regions@[bar_index as int].size > 0
                    &&& from <= j < bar_index ==> !reported
                },
                _ => after.setup is Finished && (from <= j ==> !reported),
            }
        }),
{
    let from = looks_on_from(before, event);
    bars::law_next_bar_has_a_size(resources, from);
    if event is ConfigDword {
        bars::law_bar_register_bits(event->ConfigDword_0, event->ConfigDword_0);
    }
    if event is Area {
        let region = before.setup->Mapping_region;
        let requests = before.setup->requests@;
        let mmaps = region.mmaps@;
        let (progress, step) = choose|progress: AreaProgress, step: AreaStep|
            {
                &&& #[trigger] mapping::area_step(
                    requests[mmaps.len() as int],
                    before.setup->progress,
                    event->Area_0,
                    progress,
                    step,
                )
                &&& match step {
                    AreaStep::Mapped(mmap) => bars::bar_continued(
                        resources,
                        region,
                        mmaps.push(mmap),
                        requests,
                        before,
                        after,
                        action,
                    ),
                    _ => {
                        &&& after.bars == before.bars
                        &&& after.regions == before.regions
                        &&& after.same_windows(before)
                        &&& bars::carries_out(step, mmaps, action)
                        &&& bars::goes_on(after.setup, region, mmaps, requests, progress)
                    },
                }
            };
    }
}

/// A call that fails while a BAR is mapped ends the setup with the error of that call.
pub proof fn law_failed_call_ends_the_setup(
    resources: VfioPciResources,
    layout: MsixLayout,
    page_size: u64,
    before: SetupState,
    event: AreaEvent,
    after: SetupState,
    action: SetupAction,
)
    requires
        bars::setup_event_fits(before.setup, SetupEvent::Area(event)),
        bars::setup_step(
            resources,
            layout,
            page_size,
            before,
            SetupEvent::Area(event),
            after,
            action,
        ),
    ensures
        match event {
            AreaEvent::Mmap(Err(cause)) => action is Failed && action->error
                == VfioPciError::Mmap(cause),
            AreaEvent::Slot(None) => action is Failed && action->error
                == VfioPciError::NotEnoughKvmSlots,
            AreaEvent::Registered(Err(message)) => action is Failed && action->error
                == VfioPciError::RegisterMemoryRegion(message),
            AreaEvent::Mmap(Ok(_)) => action is NextSlot,
            AreaEvent::Slot(Some(_)) => action is Register,
            _ => !(action is NextSlot) && !(action is Register),
        },
        action is Failed ==> after.setup is Finished && after.regions == before.regions
            && after.bars == before.bars,
{
}

} // verus!
