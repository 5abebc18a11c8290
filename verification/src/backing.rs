//! What backs the mapped parts of the BARs, once they are set up.

use vstd::prelude::*;

use crate::align;
use crate::bars;
use crate::bars::{BarSetup, SetupAction, SetupEvent, SetupState};
use crate::device;
use crate::mapping;
use crate::mapping::{AreaEvent, AreaProgress, AreaStep, KvmMemoryRegion, MmapCall};
use crate::msix::MsixLayout;
use crate::plan;
use crate::ranges;
use crate::region;
use crate::region::{AreaRequest, BarMmap, MmioRegion, RegionInfo};
use crate::resources::VfioPciResources;

verus! {

/// Whether a call maps, of the file of the device, `length` bytes that lie as far from the start of
/// a region as `guest_addr` does from the start of the BAR at `bar_addr`.
pub open spec fn maps_from(
    info: RegionInfo,
    bar_addr: u64,
    guest_addr: u64,
    length: int,
    call: MmapCall,
) -> bool {
    &&& call.offset as int - info.offset as int == guest_addr as int - bar_addr as int
    &&& call.length as int == length
    &&& call.prot == info.flags as int % 4
    &&& call.flags == 1
}

/// Whether a memory region exposes `length` bytes at `host_addr` at `guest_addr`.
pub open spec fn exposes_at(
    memory: KvmMemoryRegion,
    host_addr: u64,
    slot: u32,
    guest_addr: u64,
    length: int,
) -> bool {
    &&& memory.slot == slot
    &&& memory.flags == 0
    &&& memory.guest_phys_addr == guest_addr
    &&& memory.memory_size as int == length
    &&& memory.userspace_addr == host_addr
}

/// Whether the action after event `j` of a run and those that followed it came by a mapping of a
/// BAR: the file of the device was mapped, which gave the host address of the mapping; a slot was
/// asked for, which gave its slot; and that memory was registered in that slot at the guest address
/// of the mapping, without a failure.
pub open spec fn mapped_from(
    resources: VfioPciResources,
    region: MmioRegion,
    mmap: BarMmap,
    events: Seq<SetupEvent>,
    actions: Seq<SetupAction>,
    j: int,
) -> bool {
    &&& actions[j] is Mmap
    &&& maps_from(
        resources.regions@[region.index as int],
        region.guest_addr,
        mmap.guest_addr,
        mmap.length as int,
        actions[j]->Mmap_0,
    )
    &&& events[j + 1] == SetupEvent::Area(AreaEvent::Mmap(Ok(mmap.host_addr)))
    &&& actions[j + 1] is NextSlot
    &&& events[j + 2] == SetupEvent::Area(AreaEvent::Slot(Some(mmap.slot)))
    &&& actions[j + 2] is Register
    &&& exposes_at(
        actions[j + 2]->Register_0,
        mmap.host_addr,
        mmap.slot,
        mmap.guest_addr,
        mmap.length as int,
    )
    &&& events[j + 3] is Area
    &&& events[j + 3]->Area_0 is Registered
    &&& events[j + 3]->Area_0->Registered_0 is Ok
}

/// Whether a mapping of a BAR came by the first `end` events of a run and the actions that they led
/// to.
pub open spec fn backed(
    resources: VfioPciResources,
    region: MmioRegion,
    mmap: BarMmap,
    events: Seq<SetupEvent>,
    actions: Seq<SetupAction>,
    end: int,
) -> bool {
    exists|j: int|
        0 <= j && j + 3 < end && #[trigger] mapped_from(
            resources,
            region,
            mmap,
            events,
            actions,
            j,
        )
}

/// Whether all mappings of a BAR are backed.
pub open spec fn all_backed(
    resources: VfioPciResources,
    region: MmioRegion,
    mmaps: Seq<BarMmap>,
    events: Seq<SetupEvent>,
    actions: Seq<SetupAction>,
    end: int,
) -> bool {
    forall|m: int|
        0 <= m < mmaps.len() ==> backed(
            resources,
            region,
            #[trigger] mmaps[m],
            events,
            actions,
            end,
        )
}

/// Whether the calls for the area that is being mapped were made, as far as it has come.
spec fn under_way(
    resources: VfioPciResources,
    region: MmioRegion,
    request: AreaRequest,
    progress: AreaProgress,
    events: Seq<SetupEvent>,
    actions: Seq<SetupAction>,
    k: int,
) -> bool {
    let info = resources.regions@[region.index as int];
    let length = request.length as int;
    match progress {
        AreaProgress::Mapping => {
            &&& k >= 1
            &&& actions[k - 1] is Mmap
            &&& maps_from(
                info,
                region.guest_addr,
                request.guest_addr,
                length,
                actions[k - 1]->Mmap_0,
            )
        },
        AreaProgress::Slotting { host_addr } => {
            &&& k >= 2
            &&& actions[k - 2] is Mmap
            &&& maps_from(
                info,
                region.guest_addr,
                request.guest_addr,
                length,
                actions[k - 2]->Mmap_0,
            )
            &&& events[k - 1] == SetupEvent::Area(AreaEvent::Mmap(Ok(host_addr)))
            &&& actions[k - 1] is NextSlot
        },
        AreaProgress::Registering { host_addr, slot } => {
            &&& k >= 3
            &&& actions[k - 3] is Mmap
            &&& maps_from(
                info,
                region.guest_addr,
                request.guest_addr,
                length,
                actions[k - 3]->Mmap_0,
            )
            &&& events[k - 2] == SetupEvent::Area(AreaEvent::Mmap(Ok(host_addr)))
            &&& actions[k - 2] is NextSlot
            &&& events[k - 1] == SetupEvent::Area(AreaEvent::Slot(Some(slot)))
            &&& actions[k - 1] is Register
            &&& exposes_at(
                actions[k - 1]->Register_0,
                host_addr,
                slot,
                request.guest_addr,
                length,
            )
        },
        _ => true,
    }
}

/// Whether everything that is mapped after `k` events is backed, and what is being mapped under way.
spec fn run_backed(
    resources: VfioPciResources,
    first: int,
    state: SetupState,
    events: Seq<SetupEvent>,
    actions: Seq<SetupAction>,
    k: int,
) -> bool {
    &&& 0 <= first <= state.regions.len()
    &&& forall|r: int|
        first <= r < state.regions.len() ==> all_backed(
            resources,
            #[trigger] state.regions[r],
            state.regions[r].mmaps@,
            events,
            actions,
            k,
        )
    &&& state.setup matches BarSetup::Mapping { region, requests, progress } ==> {
        &&& all_backed(resources, region, region.mmaps@, events, actions, k)
        &&& under_way(
            resources,
            region,
            requests@[region.mmaps@.len() as int],
            progress,
            events,
            actions,
            k,
        )
    }
}

proof fn lemma_backed_later(
    resources: VfioPciResources,
    a: MmioRegion,
    b: MmioRegion,
    mmaps: Seq<BarMmap>,
    events: Seq<SetupEvent>,
    actions: Seq<SetupAction>,
    k: int,
)
    requires
        all_backed(resources, a, mmaps, events, actions, k),
        bars::same_bar(a, b),
    ensures
        all_backed(resources, b, mmaps, events, actions, k + 1),
{
    assert forall|m: int| 0 <= m < mmaps.len() implies backed(
        resources,
        b,
        #[trigger] mmaps[m],
        events,
        actions,
        k + 1,
    ) by {
        assert(backed(resources, a, mmaps[m], events, actions, k));
        let j = choose|j: int|
            0 <= j && j + 3 < k && #[trigger] mapped_from(
                resources,
                a,
                mmaps[m],
                events,
                actions,
                j,
            );
        assert(mapped_from(resources, b, mmaps[m], events, actions, j));
    }
}

proof fn lemma_backed_alike(
    resources: VfioPciResources,
    a: MmioRegion,
    b: MmioRegion,
    mmaps: Seq<BarMmap>,
    events: Seq<SetupEvent>,
    actions: Seq<SetupAction>,
    k: int,
)
    requires
        all_backed(resources, a, mmaps, events, actions, k),
        bars::same_bar(a, b),
    ensures
        all_backed(resources, b, mmaps, events, actions, k),
{
    assert forall|m: int| 0 <= m < mmaps.len() implies backed(
        resources,
        b,
        #[trigger] mmaps[m],
        events,
        actions,
        k,
    ) by {
        assert(backed(resources, a, mmaps[m], events, actions, k));
        let j = choose|j: int|
            0 <= j && j + 3 < k && #[trigger] mapped_from(
                resources,
                a,
                mmaps[m],
                events,
                actions,
                j,
            );
        assert(mapped_from(resources, b, mmaps[m], events, actions, j));
    }
}

/// The call that begins an area of a BAR is made for the place that the area has in the BAR.
proof fn lemma_begun(
    resources: VfioPciResources,
    layout: MsixLayout,
    page_size: u64,
    bar: MmioRegion,
    n: int,
    progress: AreaProgress,
    step: AreaStep,
)
    requires
        bars::planned_mapping_fits(resources, layout, page_size, bar),
        0 <= n < bars::planned_requests(resources, layout, page_size, bar).len(),
        mapping::area_step(
            bars::planned_requests(resources, layout, page_size, bar)[n],
            AreaProgress::Fresh,
            AreaEvent::Begin,
            progress,
            step,
        ),
    ensures
        step is Mmap || step is Failed,
        step is Failed ==> progress is Closed,
        step matches AreaStep::Mmap(call) ==> progress is Mapping && maps_from(
            resources.regions@[bar.index as int],
            bar.guest_addr,
            bars::planned_requests(resources, layout, page_size, bar)[n].guest_addr,
            bars::planned_requests(resources, layout, page_size, bar)[n].length as int,
            call,
        ),
{
    region::law_requests_keep_their_place(
        resources.regions@[bar.index as int],
        layout,
        bar.index,
        bar.size,
        page_size,
        bar.guest_addr,
        n,
    );
}

proof fn lemma_continued_keeps_backed(
    resources: VfioPciResources,
    layout: MsixLayout,
    page_size: u64,
    first: int,
    bar: MmioRegion,
    mmaps: Seq<BarMmap>,
    states: Seq<SetupState>,
    events: Seq<SetupEvent>,
    actions: Seq<SetupAction>,
    k: int,
)
    requires
        0 <= k < events.len(),
        run_backed(resources, first, states[k], events, actions, k),
        bars::planned_mapping_fits(resources, layout, page_size, bar),
        all_backed(resources, bar, mmaps, events, actions, k + 1),
        bars::bar_continued(
            resources,
            bar,
            mmaps,
            bars::planned_requests(resources, layout, page_size, bar),
            states[k],
            states[k + 1],
            actions[k],
        ),
    ensures
        run_backed(resources, first, states[k + 1], events, actions, k + 1),
{
    let before = states[k];
    let after = states[k + 1];
    let requests = bars::planned_requests(resources, layout, page_size, bar);
    assert forall|r: int| first <= r < after.regions.len() implies all_backed(
        resources,
        #[trigger] after.regions[r],
        after.regions[r].mmaps@,
        events,
        actions,
        k + 1,
    ) by {
        if r < before.regions.len() {
            let old_bar = before.regions[r];
            assert(after.regions[r] == old_bar);
            lemma_backed_later(resources, old_bar, old_bar, old_bar.mmaps@, events, actions, k);
        } else {
            let last = after.regions[r];
            assert(last == after.regions.last());
            lemma_backed_alike(resources, bar, last, mmaps, events, actions, k + 1);
        }
    }
    if mmaps.len() < requests.len() {
        let (progress, step) = choose|progress: AreaProgress, step: AreaStep|
            {
                &&& #[trigger] mapping::area_step(
                    requests[mmaps.len() as int],
                    AreaProgress::Fresh,
                    AreaEvent::Begin,
                    progress,
                    step,
                )
                &&& bars::carries_out(step, mmaps, actions[k])
                &&& bars::goes_on(after.setup, bar, mmaps, requests, progress)
            };
        lemma_begun(
            resources,
            layout,
            page_size,
            bar,
            mmaps.len() as int,
            progress,
            step,
        );
        if let BarSetup::Mapping { region: r, requests: q, progress: p } = after.setup {
            lemma_backed_alike(resources, bar, r, mmaps, events, actions, k + 1);
        }
    }
}

proof fn lemma_step_keeps_backed(
    resources: VfioPciResources,
    layout: MsixLayout,
    page_size: u64,
    config: spec_fn(u32) -> u32,
    first: int,
    states: Seq<SetupState>,
    events: Seq<SetupEvent>,
    actions: Seq<SetupAction>,
    k: int,
)
    requires
        plan::is_run(resources, layout, page_size, config, states, events, actions),
        0 <= k < events.len(),
        run_backed(resources, first, states[k], events, actions, k),
        states[k].setup matches BarSetup::Program { region } ==> bars::planned_mapping_fits(
            resources,
            layout,
            page_size,
            region,
        ),
    ensures
        run_backed(resources, first, states[k + 1], events, actions, k + 1),
{
    let before = states[k];
    let after = states[k + 1];
    let event = events[k];
    let action = actions[k];
    assert(bars::setup_step(resources, layout, page_size, before, event, after, action));
    assert forall|r: int| first <= r < before.regions.len() implies all_backed(
        resources,
        #[trigger] before.regions[r],
        before.regions[r].mmaps@,
        events,
        actions,
        k + 1,
    ) by {
        let bar = before.regions[r];
        lemma_backed_later(resources, bar, bar, bar.mmaps@, events, actions, k);
    }
    match event {
        SetupEvent::Programmed => {
            let bar = before.setup->Program_region;
            lemma_continued_keeps_backed(
                resources,
                layout,
                page_size,
                first,
                bar,
                seq![],
                states,
                events,
                actions,
                k,
            );
        },
        SetupEvent::Area(e) => {
            let bar = before.setup->Mapping_region;
            let requests = before.setup->requests@;
            let mmaps = bar.mmaps@;
            let request = requests[mmaps.len() as int];
            let (progress, step) = choose|progress: AreaProgress, step: AreaStep|
                {
                    &&& #[trigger] mapping::area_step(
                        requests[mmaps.len() as int],
                        before.setup->progress,
                        e,
                        progress,
                        step,
                    )
                    &&& match step {
                        AreaStep::Mapped(mmap) => bars::bar_continued(
                            resources,
                            bar,
                            mmaps.push(mmap),
                            requests,
                            before,
                            after,
                            action,
                        ),
                        _ => {
                            &&& after.bars == before.bars
                            &&& after.regions == before.regions
                            &&& after.same_windows(before)
                            &&& bars::carries_out(step, mmaps, action)
                            &&& bars::goes_on(after.setup, bar, mmaps, requests, progress)
                        },
                    }
                };
            lemma_backed_later(resources, bar, bar, mmaps, events, actions, k);
            match step {
                AreaStep::Mapped(mmap) => {
                    let longer = mmaps.push(mmap);
                    let past = before.setup->progress;
                    assert(past is Registering);
                    assert(under_way(resources, bar, request, past, events, actions, k));
                    assert(mapping::callable(request));
                    assert(mmap.length == request.length && mmap.guest_addr == request.guest_addr);
                    assert(mapped_from(resources, bar, mmap, events, actions, k - 3));
                    assert(backed(resources, bar, mmap, events, actions, k + 1));
                    assert forall|m: int| 0 <= m < longer.len() implies backed(
                        resources,
                        bar,
                        #[trigger] longer[m],
                        events,
                        actions,
                        k + 1,
                    ) by {
                        if m < mmaps.len() {
                            assert(longer[m] == mmaps[m]);
                        }
                    }
                    lemma_continued_keeps_backed(
                        resources,
                        layout,
                        page_size,
                        first,
                        bar,
                        longer,
                        states,
                        events,
                        actions,
                        k,
                    );
                },
                _ => {
                    if let BarSetup::Mapping { region: r, requests: q, progress: p } = after.setup {
                        lemma_backed_later(resources, bar, r, mmaps, events, actions, k);
                    }
                },
            }
        },
        _ => {},
    }
}

proof fn lemma_run_keeps_backed(
    resources: VfioPciResources,
    layout: MsixLayout,
    page_size: u64,
    config: spec_fn(u32) -> u32,
    states: Seq<SetupState>,
    events: Seq<SetupEvent>,
    actions: Seq<SetupAction>,
    k: int,
)
    requires
        plan::is_run(resources, layout, page_size, config, states, events, actions),
        states[0].setup is Start,
        forall|j: int|
            0 <= j < events.len() && (#[trigger] states[j]).setup is Program
                ==> bars::planned_mapping_fits(
                resources,
                layout,
                page_size,
                states[j].setup->Program_region,
            ),
        0 <= k <= events.len(),
    ensures
        run_backed(
            resources,
            states[0].regions.len() as int,
            states[k],
            events,
            actions,
            k,
        ),
    decreases k,
{
    if k > 0 {
        let j = k - 1;
        lemma_run_keeps_backed(
            resources,
            layout,
            page_size,
            config,
            states,
            events,
            actions,
            j,
        );
        assert(states[j].setup is Program ==> bars::planned_mapping_fits(
            resources,
            layout,
            page_size,
            states[j].setup->Program_region,
        ));
        lemma_step_keeps_backed(
            resources,
            layout,
            page_size,
            config,
            states[0].regions.len() as int,
            states,
            events,
            actions,
            j,
        );
    }
}

/// Every mapping that a run has made for a BAR is backed by the bytes of the device file that the
/// BAR has there: it came from a call that mapped the file as far from the start of the region as
/// the mapping lies from the start of the BAR in the guest, and was registered with the address and
/// the slot that the host gave. So a guest address `g` in it is the byte of the file at the offset
/// of the region plus `g` less the address of the BAR.
pub proof fn law_mappings_are_backed(
    resources: VfioPciResources,
    layout: MsixLayout,
    page_size: u64,
    config: spec_fn(u32) -> u32,
    states: Seq<SetupState>,
    events: Seq<SetupEvent>,
    actions: Seq<SetupAction>,
    r: int,
    m: int,
)
    requires
        plan::is_run(resources, layout, page_size, config, states, events, actions),
        states[0].setup is Start,
        forall|j: int|
            0 <= j < events.len() && (#[trigger] states[j]).setup is Program
                ==> bars::planned_mapping_fits(
                resources,
                layout,
                page_size,
                states[j].setup->Program_region,
            ),
        states[0].regions.len() <= r < states.last().regions.len(),
        0 <= m < states.last().regions[r].mmaps@.len(),
    ensures
        backed(
            resources,
            states.last().regions[r],
            states.last().regions[r].mmaps@[m],
            events,
            actions,
            events.len() as int,
        ),
{
    lemma_run_keeps_backed(
        resources,
        layout,
        page_size,
        config,
        states,
        events,
        actions,
        events.len() as int,
    );
    let bar = states.last().regions[r];
    assert(all_backed(resources, bar, bar.mmaps@, events, actions, events.len() as int));
}

/// Every call of `mmap` that a step asks for maps the file of the device at the offset of the region
/// plus the place that the area has in the BAR.
pub proof fn law_mmap_calls_keep_their_place(
    resources: VfioPciResources,
    layout: MsixLayout,
    page_size: u64,
    before: SetupState,
    event: SetupEvent,
    after: SetupState,
    action: SetupAction,
)
    requires
        bars::setup_wf(resources, layout, page_size, before.setup),
        bars::setup_event_fits(before.setup, event),
        bars::setup_step(resources, layout, page_size, before, event, after, action),
        before.setup matches BarSetup::Program { region } ==> bars::planned_mapping_fits(
            resources,
            layout,
            page_size,
            region,
        ),
        action is Mmap,
    ensures
        ({
            let bar = after.setup->Mapping_region;
            let request = after.setup->requests@[bar.mmaps@.len() as int];
            &&& after.setup is Mapping
            &&& bar.mmaps@.len() < after.setup->requests@.len()
            &&& maps_from(
                resources.regions@[bar.index as int],
                bar.guest_addr,
                request.guest_addr,
                request.length as int,
                action->Mmap_0,
            )
        }),
{
    match event {
        SetupEvent::Programmed => {
            let bar = before.setup->Program_region;
            let requests = bars::planned_requests(resources, layout, page_size, bar);
            let (progress, step) = choose|progress: AreaProgress, step: AreaStep|
                {
                    &&& #[trigger] mapping::area_step(
                        requests[0],
                        AreaProgress::Fresh,
                        AreaEvent::Begin,
                        progress,
                        step,
                    )
                    &&& bars::carries_out(step, seq![], action)
                    &&& bars::goes_on(after.setup, bar, seq![], requests, progress)
                };
            lemma_begun(resources, layout, page_size, bar, 0, progress, step);
        },
        SetupEvent::Area(e) => {
            let bar = before.setup->Mapping_region;
            let requests = before.setup->requests@;
            let mmaps = bar.mmaps@;
            let (closed, mapped) = choose|progress: AreaProgress, step: AreaStep|
                {
                    &&& #[trigger] mapping::area_step(
                        requests[mmaps.len() as int],
                        before.setup->progress,
                        e,
                        progress,
                        step,
                    )
                    &&& match step {
                        AreaStep::Mapped(mmap) => bars::bar_continued(
                            resources,
                            bar,
                            mmaps.push(mmap),
                            requests,
                            before,
                            after,
                            action,
                        ),
                        _ => {
                            &&& after.bars == before.bars
                            &&& after.regions == before.regions
                            &&& after.same_windows(before)
                            &&& bars::carries_out(step, mmaps, action)
                            &&& bars::goes_on(after.setup, bar, mmaps, requests, progress)
                        },
                    }
                };
            let longer = mmaps.push(mapped->Mapped_0);
            let (progress, step) = choose|progress: AreaProgress, step: AreaStep|
                {
                    &&& #[trigger] mapping::area_step(
                        requests[longer.len() as int],
                        AreaProgress::Fresh,
                        AreaEvent::Begin,
                        progress,
                        step,
                    )
                    &&& bars::carries_out(step, longer, action)
                    &&& bars::goes_on(after.setup, bar, longer, requests, progress)
                };
            lemma_begun(
                resources,
                layout,
                page_size,
                bar,
                longer.len() as int,
                progress,
                step,
            );
        },
        _ => {},
    }
}

/// A BAR that is fully mapped exposes to the guest exactly the bytes that may be: none where its
/// region cannot be mapped, else those that the kernel allows (all of it, or the areas of its first
/// sparse mmap capability) and that lie in no page of the MSI-X table or of the PBA.
pub proof fn law_mapped_bar_exposes_what_may_be(
    resources: VfioPciResources,
    layout: MsixLayout,
    page_size: u64,
    bar: MmioRegion,
    k: int,
    x: int,
)
    requires
        layout.wf(),
        align::is_power_of_two(page_size),
        bars::bar_wf(resources, bar),
        bars::planned_mapping_fits(resources, layout, page_size, bar),
        plan::fully_mapped(resources, layout, page_size, bar),
        region::first_sparse(resources.regions@[bar.index as int].caps@, k),
    ensures
        ({
            let info = resources.regions@[bar.index as int];
            device::exposes(bar, bar.guest_addr + x) <==> {
                &&& info.flags / 4 % 2 == 1
                &&& if k < info.caps@.len() {
                    ranges::areas_have(info.caps@[k]->SparseMmap_0@, x)
                } else {
                    0 <= x < bar.size
                }
                &&& !region::shares_msix_page(layout, bar.index, page_size, x)
            }
        }),
{
    let info = resources.regions@[bar.index as int];
    let direct = region::direct_areas(info, layout, bar.index, bar.size, page_size);
    let requests = bars::planned_requests(resources, layout, page_size, bar);
    let mapped = device::mapped_areas(bar);
    region::law_mapping_fits(
        info,
        layout,
        bar.index,
        bar.size,
        page_size,
        bar.guest_addr,
        k,
    );
    assert forall|i: int| 0 <= i < bar.mmaps@.len() implies bar.guest_addr <= (
    #[trigger] bar.mmaps@[i]).guest_addr && mapped[i] == direct[i] by {
        region::law_requests_keep_their_place(
            info,
            layout,
            bar.index,
            bar.size,
            page_size,
            bar.guest_addr,
            i,
        );
        assert(bar.mmaps@[i].guest_addr == requests[i].guest_addr);
    }
    assert(requests.len() == direct.len());
    assert(mapped =~= direct);
    device::law_mapped_areas_are_exposed(bar, x);
    if info.flags / 4 % 2 == 1 {
        if k < info.caps@.len() {
            let allowed = region::allowed_areas(info.caps@, bar.size, k);
            assert forall|i: int| 0 <= i < info.caps@[k]->SparseMmap_0@.len() implies (
            #[trigger] info.caps@[k]->SparseMmap_0@[i]).0 + info.caps@[k]->SparseMmap_0@[i].1
                <= u64::MAX by {
                assert(allowed[i].0 + allowed[i].1 <= u64::MAX);
            }
        }
        region::law_direct_bytes(info, layout, bar.index, bar.size, page_size, k, x);
    } else {
        region::law_unmappable_bar_is_not_direct(info, layout, bar.index, bar.size, page_size);
    }
}

} // verus!
