//! What setting up the BARs of a device leads to, whatever the host answers.

use vstd::prelude::*;

use crate::allocator;
use crate::bars;
use crate::bars::{BarSetup, SetupAction, SetupEvent, SetupState};
use crate::device::{BarSetting, NUM_BAR_REGS};
use crate::mapping;
use crate::mapping::{AreaEvent, AreaProgress, AreaStep};
use crate::msix::MsixLayout;
use crate::region::{BarMmap, MmioRegion, PciBarType};
use crate::resources::VfioPciResources;

verus! {

/// The byte offset of the register of BAR `i` in configuration space.
pub open spec fn bar_register(i: int) -> u32 {
    (bars::PCI_CONFIG_BAR_OFFSET + i * 4) as u32
}

/// The settings that the BARs from `i` on are given, one after the other: memory BARs only, in the
/// order of their indices, each at the lowest address of its window that fits it, up to the first
/// one that is given none.
pub open spec fn planned_bars(
    resources: VfioPciResources,
    config: spec_fn(u32) -> u32,
    nodes32: Seq<(u64, u64, bool)>,
    nodes64: Seq<(u64, u64, bool)>,
    i: int,
) -> Seq<BarSetting>
    decreases NUM_BAR_REGS + 1 - i,
{
    let size = resources.region_size(i);
    let bar_cfg = config(bar_register(i));
    if i >= NUM_BAR_REGS {
        seq![]
    } else if size == 0 || bars::is_io_bar(bar_cfg) {
        planned_bars(resources, config, nodes32, nodes64, i + 1)
    } else {
        match bars::bar_type_of(bar_cfg) {
            PciBarType::Memory32 => match allocator::given_address(nodes32, size, size) {
                Some(address) => seq![bars::setting_of(resources, i, bar_cfg, address)]
                    + planned_bars(
                    resources,
                    config,
                    allocator::nodes_after(nodes32, size, size),
                    nodes64,
                    i + 1,
                ),
                None => seq![],
            },
            PciBarType::Memory64 => match allocator::given_address(nodes64, size, size) {
                Some(address) => seq![bars::setting_of(resources, i, bar_cfg, address)]
                    + planned_bars(
                    resources,
                    config,
                    nodes32,
                    allocator::nodes_after(nodes64, size, size),
                    i + 2,
                ),
                None => seq![],
            },
        }
    }
}

/// The index of the first BAR slot that was not dealt with yet.
pub open spec fn slots_reached(setup: BarSetup) -> int {
    match setup {
        BarSetup::Start => 0,
        BarSetup::Config { bar_index } => bar_index as int,
        BarSetup::Program { region } => region.index + bars::bar_slots(region.bar_type),
        BarSetup::Mapping { region, requests, progress } => region.index + bars::bar_slots(
            region.bar_type,
        ),
        BarSetup::Finished => NUM_BAR_REGS as int,
    }
}

/// The settings that are still to be given.
pub open spec fn remaining_bars(
    resources: VfioPciResources,
    config: spec_fn(u32) -> u32,
    state: SetupState,
) -> Seq<BarSetting> {
    planned_bars(resources, config, state.nodes32, state.nodes64, slots_reached(state.setup))
}

/// Whether an event that hands over a register of a BAR hands over what the device holds.
pub open spec fn event_reads_from(
    config: spec_fn(u32) -> u32,
    setup: BarSetup,
    event: SetupEvent,
) -> bool {
    event matches SetupEvent::ConfigDword(bar_cfg) ==> bar_cfg == config(
        bar_register(setup->bar_index as int),
    )
}

/// Whether a BAR failed to be mapped, after it was given an address.
pub open spec fn mapping_failed(event: SetupEvent, action: SetupAction) -> bool {
    action is Failed && !(event is ConfigDword)
}

/// Looking for the next BAR that the device has skips no BAR that is given an address.
proof fn lemma_planned_from_next(
    resources: VfioPciResources,
    config: spec_fn(u32) -> u32,
    nodes32: Seq<(u64, u64, bool)>,
    nodes64: Seq<(u64, u64, bool)>,
    i: int,
)
    requires
        0 <= i,
    ensures
        planned_bars(resources, config, nodes32, nodes64, i) == planned_bars(
            resources,
            config,
            nodes32,
            nodes64,
            bars::next_bar(resources, i),
        ),
        i <= NUM_BAR_REGS ==> i <= bars::next_bar(resources, i) <= NUM_BAR_REGS,
    decreases NUM_BAR_REGS - i,
{
    if i < NUM_BAR_REGS && resources.region_size(i) == 0 {
        lemma_planned_from_next(resources, config, nodes32, nodes64, i + 1);
    }
}

/// As the BARs are set up, those that are set up and those that are still to be remain the same
/// BARs, in the same order, as long as every BAR that is given an address can be mapped.
pub proof fn law_step_keeps_the_plan(
    resources: VfioPciResources,
    layout: MsixLayout,
    page_size: u64,
    config: spec_fn(u32) -> u32,
    before: SetupState,
    event: SetupEvent,
    after: SetupState,
    action: SetupAction,
)
    requires
        bars::setup_wf(resources, layout, page_size, before.setup),
        bars::setup_event_fits(before.setup, event),
        bars::setup_step(resources, layout, page_size, before, event, after, action),
        event_reads_from(config, before.setup, event),
        before.nodes32.len() < allocator::TREE_NODES,
        before.nodes64.len() < allocator::TREE_NODES,
        !mapping_failed(event, action),
    ensures
        before.bars + remaining_bars(resources, config, before) == after.bars + remaining_bars(
            resources,
            config,
            after,
        ),
{
    let n32 = before.nodes32;
    let n64 = before.nodes64;
    match event {
        SetupEvent::Begin => {
            lemma_planned_from_next(resources, config, n32, n64, 0);
        },
        SetupEvent::ConfigDword(bar_cfg) => {
            let i = before.setup->bar_index as int;
            lemma_planned_from_next(resources, config, n32, n64, i + 1);
            assert(before.bars + remaining_bars(resources, config, before) =~= after.bars
                + remaining_bars(resources, config, after));
        },
        SetupEvent::Programmed => {
            let region = before.setup->Program_region;
            lemma_planned_from_next(
                resources,
                config,
                n32,
                n64,
                region.index + bars::bar_slots(region.bar_type),
            );
        },
        SetupEvent::Area(_) => {
            let region = before.setup->Mapping_region;
            lemma_planned_from_next(
                resources,
                config,
                n32,
                n64,
                region.index + bars::bar_slots(region.bar_type),
            );
        },
    }
}

/// Whether `states` is a run of the setup, with each state led to by an event and followed by an
/// action, in which registers are read from `config`.
pub open spec fn is_run(
    resources: VfioPciResources,
    layout: MsixLayout,
    page_size: u64,
    config: spec_fn(u32) -> u32,
    states: Seq<SetupState>,
    events: Seq<SetupEvent>,
    actions: Seq<SetupAction>,
) -> bool {
    &&& states.len() == events.len() + 1
    &&& actions.len() == events.len()
    &&& forall|k: int|
        #![trigger events[k]]
        0 <= k < events.len() ==> {
            &&& bars::setup_wf(resources, layout, page_size, states[k].setup)
            &&& bars::setup_event_fits(states[k].setup, events[k])
            &&& bars::setup_step(
                resources,
                layout,
                page_size,
                states[k],
                events[k],
                states[k + 1],
                actions[k],
            )
            &&& event_reads_from(config, states[k].setup, events[k])
            &&& states[k].nodes32.len() < allocator::TREE_NODES
            &&& states[k].nodes64.len() < allocator::TREE_NODES
        }
}

/// Whether a run has come to its end because a BAR failed to be mapped.
pub open spec fn ends_unmapped(events: Seq<SetupEvent>, actions: Seq<SetupAction>) -> bool {
    events.len() > 0 && mapping_failed(events.last(), actions.last())
}

/// A BAR that cannot be set up ends the setup.
proof fn lemma_failure_finishes(
    resources: VfioPciResources,
    layout: MsixLayout,
    page_size: u64,
    before: SetupState,
    event: SetupEvent,
    after: SetupState,
    action: SetupAction,
)
    requires
        bars::setup_event_fits(before.setup, event),
        bars::setup_step(resources, layout, page_size, before, event, after, action),
        action is Failed,
    ensures
        after.setup is Finished,
{
}

/// Nothing follows in a run on a BAR that cannot be set up.
proof fn lemma_failure_is_last(
    resources: VfioPciResources,
    layout: MsixLayout,
    page_size: u64,
    config: spec_fn(u32) -> u32,
    states: Seq<SetupState>,
    events: Seq<SetupEvent>,
    actions: Seq<SetupAction>,
    k: int,
)
    requires
        is_run(resources, layout, page_size, config, states, events, actions),
        0 <= k < events.len(),
        actions[k] is Failed,
    ensures
        k == events.len() - 1,
{
    let event = events[k];
    lemma_failure_finishes(
        resources,
        layout,
        page_size,
        states[k],
        event,
        states[k + 1],
        actions[k],
    );
    if k + 1 < events.len() {
        assert(bars::setup_event_fits(states[k + 1].setup, events[k + 1]));
    }
}

/// A run that has started at the first BAR and is finished, because all BARs are set up or one is
/// given no address, has given the BARs of the device exactly the settings that were planned,
/// after those that there were before. Where a BAR failed to be mapped, the settings that were
/// given are the first of these.
pub proof fn law_run_sets_up_every_planned_bar(
    resources: VfioPciResources,
    layout: MsixLayout,
    page_size: u64,
    config: spec_fn(u32) -> u32,
    states: Seq<SetupState>,
    events: Seq<SetupEvent>,
    actions: Seq<SetupAction>,
)
    requires
        is_run(resources, layout, page_size, config, states, events, actions),
        states[0].setup is Start,
        states.last().setup is Finished,
    ensures
        ({
            let plan = states[0].bars + planned_bars(
                resources,
                config,
                states[0].nodes32,
                states[0].nodes64,
                0,
            );
            if ends_unmapped(events, actions) {
                states.last().bars.is_prefix_of(plan)
            } else {
                states.last().bars == plan
            }
        }),
{
    let last = events.len() - 1;
    let event = events[last];
    let plan = states[0].bars + planned_bars(
        resources,
        config,
        states[0].nodes32,
        states[0].nodes64,
        0,
    );
    lemma_run_keeps_the_plan(resources, layout, page_size, config, states, events, actions, last);
    if ends_unmapped(events, actions) {
        assert(states.last().bars == states[last].bars);
        assert(plan.take(states.last().bars.len() as int) =~= states.last().bars);
    } else {
        law_step_keeps_the_plan(
            resources,
            layout,
            page_size,
            config,
            states[last],
            event,
            states[last + 1],
            actions[last],
        );
        assert(states.last().bars + seq![] =~= states.last().bars);
    }
}

proof fn lemma_run_keeps_the_plan(
    resources: VfioPciResources,
    layout: MsixLayout,
    page_size: u64,
    config: spec_fn(u32) -> u32,
    states: Seq<SetupState>,
    events: Seq<SetupEvent>,
    actions: Seq<SetupAction>,
    k: int,
)
    requires
        is_run(resources, layout, page_size, config, states, events, actions),
        0 <= k < events.len(),
    ensures
        states[0].bars + remaining_bars(resources, config, states[0]) == states[k].bars
            + remaining_bars(resources, config, states[k]),
    decreases k,
{
    if k > 0 {
        lemma_run_keeps_the_plan(
            resources,
            layout,
            page_size,
            config,
            states,
            events,
            actions,
            k - 1,
        );
        let event = events[k - 1];
        if actions[k - 1] is Failed {
            lemma_failure_is_last(
                resources,
                layout,
                page_size,
                config,
                states,
                events,
                actions,
                k - 1,
            );
        }
        law_step_keeps_the_plan(
            resources,
            layout,
            page_size,
            config,
            states[k - 1],
            event,
            states[k],
            actions[k - 1],
        );
    }
}

/// The planned BARs come in rising order of their indices, and leave the slot after a 64-bit BAR
/// to it.
pub proof fn law_planned_bars_rise(
    resources: VfioPciResources,
    config: spec_fn(u32) -> u32,
    nodes32: Seq<(u64, u64, bool)>,
    nodes64: Seq<(u64, u64, bool)>,
    i: int,
)
    requires
        0 <= i,
    ensures
        ({
            let plan = planned_bars(resources, config, nodes32, nodes64, i);
            &&& forall|a: int|
                0 <= a < plan.len() ==> i <= (#[trigger] plan[a]).bar_idx < NUM_BAR_REGS
            &&& forall|a: int, b: int|
                0 <= a < b < plan.len() ==> (#[trigger] plan[a]).bar_idx + bars::bar_slots(
                    plan[a].bar_type,
                ) <= (#[trigger] plan[b]).bar_idx
        }),
    decreases NUM_BAR_REGS + 1 - i,
{
    let size = resources.region_size(i);
    let bar_cfg = config(bar_register(i));
    if i < NUM_BAR_REGS {
        if size == 0 || bars::is_io_bar(bar_cfg) {
            law_planned_bars_rise(resources, config, nodes32, nodes64, i + 1);
        } else {
            match bars::bar_type_of(bar_cfg) {
                PciBarType::Memory32 => {
                    law_planned_bars_rise(
                        resources,
                        config,
                        allocator::nodes_after(nodes32, size, size),
                        nodes64,
                        i + 1,
                    );
                },
                PciBarType::Memory64 => {
                    law_planned_bars_rise(
                        resources,
                        config,
                        nodes32,
                        allocator::nodes_after(nodes64, size, size),
                        i + 2,
                    );
                },
            }
        }
    }
}

/// Every planned BAR is a memory BAR that the device has, placed at a multiple of its size.
pub proof fn law_planned_bars_are_memory_bars(
    resources: VfioPciResources,
    config: spec_fn(u32) -> u32,
    nodes32: Seq<(u64, u64, bool)>,
    nodes64: Seq<(u64, u64, bool)>,
    i: int,
)
    requires
        0 <= i,
    ensures
        forall|a: int|
            0 <= a < planned_bars(resources, config, nodes32, nodes64, i).len() ==> {
                let bar = #[trigger] planned_bars(resources, config, nodes32, nodes64, i)[a];
                &&& bar.size == resources.region_size(bar.bar_idx as int)
                &&& bar.size > 0
                &&& !bars::is_io_bar(config(bar_register(bar.bar_idx as int)))
                &&& bar.bar_type == bars::bar_type_of(config(bar_register(bar.bar_idx as int)))
                &&& bar.guest_addr % bar.size == 0
                &&& bar.guest_addr + bar.size <= u64::MAX
            },
    decreases NUM_BAR_REGS + 1 - i,
{
    let size = resources.region_size(i);
    let bar_cfg = config(bar_register(i));
    if i < NUM_BAR_REGS {
        if size == 0 || bars::is_io_bar(bar_cfg) {
            law_planned_bars_are_memory_bars(resources, config, nodes32, nodes64, i + 1);
        } else {
            match bars::bar_type_of(bar_cfg) {
                PciBarType::Memory32 => {
                    law_planned_bars_are_memory_bars(
                        resources,
                        config,
                        allocator::nodes_after(nodes32, size, size),
                        nodes64,
                        i + 1,
                    );
                    allocator::law_given_address_is_aligned(nodes32, size, size);
                },
                PciBarType::Memory64 => {
                    law_planned_bars_are_memory_bars(
                        resources,
                        config,
                        nodes32,
                        allocator::nodes_after(nodes64, size, size),
                        i + 2,
                    );
                    allocator::law_given_address_is_aligned(nodes64, size, size);
                },
            }
        }
    }
}

/// Whether the mappings of a BAR expose all areas that were planned for it.
pub open spec fn fully_mapped(
    resources: VfioPciResources,
    layout: MsixLayout,
    page_size: u64,
    region: MmioRegion,
) -> bool {
    let requests = bars::planned_requests(resources, layout, page_size, region);
    region.mmaps@.len() == requests.len() && bars::mmaps_follow(region.mmaps@, requests)
}

/// Whether every BAR that is mapped has all its planned mappings, the mapped BARs are those that
/// were given a setting, in the same order, and at most the last setting is of a BAR that is not
/// mapped yet.
pub open spec fn settled(
    resources: VfioPciResources,
    layout: MsixLayout,
    page_size: u64,
    state: SetupState,
) -> bool {
    &&& match state.setup {
        BarSetup::Program { region } => state.bars.len() == state.regions.len() + 1
            && bars::region_is(region, state.bars.last()),
        BarSetup::Mapping { region, requests, progress } => state.bars.len() == state.regions.len()
            + 1 && bars::region_is(region, state.bars.last()),
        _ => state.bars.len() == state.regions.len(),
    }
    &&& forall|i: int|
        0 <= i < state.regions.len() ==> bars::region_is(
            #[trigger] state.regions[i],
            state.bars[i],
        ) && fully_mapped(resources, layout, page_size, state.regions[i])
}

/// As the BARs are set up, the mapped ones remain those that were given a setting, each with all
/// its planned mappings, as long as every BAR that is given an address can be mapped.
pub proof fn law_step_keeps_settled(
    resources: VfioPciResources,
    layout: MsixLayout,
    page_size: u64,
    before: SetupState,
    event: SetupEvent,
    after: SetupState,
    action: SetupAction,
)
    requires
        bars::setup_wf(resources, layout, page_size, before.setup),
        bars::setup_event_fits(before.setup, event),
        bars::setup_step(resources, layout, page_size, before, event, after, action),
        settled(resources, layout, page_size, before),
        !mapping_failed(event, action),
    ensures
        settled(resources, layout, page_size, after),
{
    match event {
        SetupEvent::Begin => {},
        SetupEvent::ConfigDword(bar_cfg) => {
            if !bars::is_io_bar(bar_cfg) && action is ProgramBar {
                assert forall|i: int| 0 <= i < after.regions.len() implies bars::region_is(
                    #[trigger] after.regions[i],
                    after.bars[i],
                ) by {
                    assert(bars::region_is(before.regions[i], before.bars[i]));
                }
            }
        },
        SetupEvent::Programmed => {
            let region = before.setup->Program_region;
            lemma_continued_keeps_settled(
                resources,
                layout,
                page_size,
                region,
                seq![],
                before,
                after,
                action,
            );
        },
        SetupEvent::Area(e) => {
            let region = before.setup->Mapping_region;
            let requests = before.setup->requests@;
            let mmaps = region.mmaps@;
            let (progress, step) = choose|progress: AreaProgress, step: AreaStep|
                {
                    &&& #[trigger] mapping::area_step(
                        requests[mmaps.len() as int],
                        before.setup->progress,
                        e,
                        progress,
                        step,
                    )
                    &&& match step {
                        AreaStep::Mapped(mmap) => bars::bar_continued(
                            resources,
                            region,
                            mmaps.push(mmap),
                            requests,
                            before,
                            after,
                            action,
                        ),
                        _ => {
                            &&& after.bars == before.bars
                            &&& after.regions == before.regions
                            &&& after.same_windows(before)
                            &&& bars::carries_out(step, mmaps, action)
                            &&& bars::goes_on(after.setup, region, mmaps, requests, progress)
                        },
                    }
                };
            if let AreaStep::Mapped(mmap) = step {
                let longer = mmaps.push(mmap);
                assert(bars::mmaps_follow(longer, requests));
                lemma_continued_keeps_settled(
                    resources,
                    layout,
                    page_size,
                    region,
                    longer,
                    before,
                    after,
                    action,
                );
            }
        },
    }
}

proof fn lemma_continued_keeps_settled(
    resources: VfioPciResources,
    layout: MsixLayout,
    page_size: u64,
    region: MmioRegion,
    mmaps: Seq<BarMmap>,
    before: SetupState,
    after: SetupState,
    action: SetupAction,
)
    requires
        settled(resources, layout, page_size, before),
        before.bars.len() == before.regions.len() + 1,
        bars::region_is(region, before.bars.last()),
        bars::mmaps_follow(mmaps, bars::planned_requests(resources, layout, page_size, region)),
        bars::bar_continued(
            resources,
            region,
            mmaps,
            bars::planned_requests(resources, layout, page_size, region),
            before,
            after,
            action,
        ),
        !(action is Failed),
    ensures
        settled(resources, layout, page_size, after),
{
    let requests = bars::planned_requests(resources, layout, page_size, region);
    if mmaps.len() < requests.len() {
    } else {
        let last = after.regions.last();
        assert(bars::planned_requests(resources, layout, page_size, last) == requests);
        assert forall|i: int| 0 <= i < after.regions.len() implies bars::region_is(
            #[trigger] after.regions[i],
            after.bars[i],
        ) && fully_mapped(resources, layout, page_size, after.regions[i]) by {
            if i < before.regions.len() {
                assert(after.regions[i] == before.regions[i]);
            }
        }
    }
}

/// Whether the range of a BAR is a taken node of the window that it is placed in.
pub open spec fn bar_is_taken(bar: BarSetting, nodes: Seq<(u64, u64, bool)>) -> bool {
    nodes.contains((bar.guest_addr, (bar.guest_addr + bar.size - 1) as u64, false))
}

/// Whether two BARs have no address in common.
pub open spec fn bars_apart(a: BarSetting, b: BarSetting) -> bool {
    a.guest_addr + a.size <= b.guest_addr || b.guest_addr + b.size <= a.guest_addr
}

/// Whether the range of every BAR is taken, and no two BARs of one window overlap.
pub open spec fn all_bars_apart(state: SetupState) -> bool {
    &&& forall|i: int|
        0 <= i < state.bars.len() ==> bar_is_taken(
            #[trigger] state.bars[i],
            state.nodes(state.bars[i].bar_type),
        ) && state.bars[i].size > 0 && state.bars[i].guest_addr + state.bars[i].size <= u64::MAX
    &&& forall|i: int, j: int|
        0 <= i < j < state.bars.len() && state.bars[i].bar_type == state.bars[j].bar_type
            ==> bars_apart(#[trigger] state.bars[i], #[trigger] state.bars[j])
}

/// As the BARs are set up, no two BARs of one window ever overlap, and the range of each stays
/// taken. Where a BAR is given no address, its window must have so few nodes that the refusal is
/// known to leave them as they were.
pub proof fn law_step_keeps_bars_apart(
    resources: VfioPciResources,
    layout: MsixLayout,
    page_size: u64,
    before: SetupState,
    event: SetupEvent,
    after: SetupState,
    action: SetupAction,
)
    requires
        bars::setup_wf(resources, layout, page_size, before.setup),
        bars::setup_event_fits(before.setup, event),
        bars::setup_step(resources, layout, page_size, before, event, after, action),
        all_bars_apart(before),
        event is ConfigDword && action is Failed ==> before.nodes32.len() < allocator::TREE_NODES
            && before.nodes64.len() < allocator::TREE_NODES,
    ensures
        all_bars_apart(after),
{
    if let SetupAction::ProgramBar(setting) = action {
        let bar_type = setting.bar_type;
        let nodes = before.nodes(bar_type);
        let size = setting.size;
        let left = after.nodes(bar_type);
        assert forall|i: int| 0 <= i < before.bars.len() && before.bars[i].bar_type
            == bar_type implies bar_is_taken(#[trigger] before.bars[i], left) && bars_apart(
            before.bars[i],
            setting,
        ) by {
            let bar = before.bars[i];
            allocator::law_taken_nodes_stay_apart(
                nodes,
                size,
                size,
                bar.guest_addr,
                (bar.guest_addr + bar.size - 1) as u64,
            );
        }
        allocator::law_given_range_is_taken(nodes, size, size);
        assert forall|i: int| 0 <= i < after.bars.len() implies bar_is_taken(
            #[trigger] after.bars[i],
            after.nodes(after.bars[i].bar_type),
        ) && after.bars[i].size > 0 && after.bars[i].guest_addr + after.bars[i].size
            <= u64::MAX by {
            if i < before.bars.len() {
                assert(after.bars[i] == before.bars[i]);
            }
        }
        assert forall|i: int, j: int|
            0 <= i < j < after.bars.len() && after.bars[i].bar_type
                == after.bars[j].bar_type implies bars_apart(
            #[trigger] after.bars[i],
            #[trigger] after.bars[j],
        ) by {
            assert(after.bars[i] == before.bars[i]);
            if j < before.bars.len() {
                assert(after.bars[j] == before.bars[j]);
            }
        }
    }
}

/// A run that starts settled and with no two BARs of one window overlapping ends so, unless a BAR
/// failed to be mapped: then still no two BARs of one window overlap. Where the run is finished, the
/// mapped BARs are therefore exactly those that were given a setting, each with all its planned
/// mappings.
pub proof fn law_run_maps_every_bar(
    resources: VfioPciResources,
    layout: MsixLayout,
    page_size: u64,
    config: spec_fn(u32) -> u32,
    states: Seq<SetupState>,
    events: Seq<SetupEvent>,
    actions: Seq<SetupAction>,
)
    requires
        is_run(resources, layout, page_size, config, states, events, actions),
        settled(resources, layout, page_size, states[0]),
        all_bars_apart(states[0]),
    ensures
        all_bars_apart(states.last()),
        !ends_unmapped(events, actions) ==> settled(resources, layout, page_size, states.last()),
        !ends_unmapped(events, actions) && states.last().setup is Finished
            ==> states.last().regions.len() == states.last().bars.len(),
{
    let n = events.len() as int;
    lemma_run_keeps_apart(resources, layout, page_size, config, states, events, actions, n);
    if !ends_unmapped(events, actions) {
        lemma_run_keeps_settled(resources, layout, page_size, config, states, events, actions, n);
    }
}

/// A run that starts settled and in which a BAR fails to be mapped ends with that BAR: the mapped
/// BARs are exactly those below it, each with all its planned mappings, and the settings that were
/// given are those of the mapped BARs and, last, its own.
pub proof fn law_failed_mapping_keeps_the_bars_below(
    resources: VfioPciResources,
    layout: MsixLayout,
    page_size: u64,
    config: spec_fn(u32) -> u32,
    states: Seq<SetupState>,
    events: Seq<SetupEvent>,
    actions: Seq<SetupAction>,
)
    requires
        is_run(resources, layout, page_size, config, states, events, actions),
        settled(resources, layout, page_size, states[0]),
        ends_unmapped(events, actions),
    ensures
        ({
            let before = states[events.len() - 1];
            let end = states.last();
            &&& end.setup is Finished
            &&& end.regions == before.regions
            &&& end.bars == before.bars
            &&& end.same_windows(before)
            &&& end.bars.len() == end.regions.len() + 1
            &&& forall|i: int|
                0 <= i < end.regions.len() ==> bars::region_is(
                    #[trigger] end.regions[i],
                    end.bars[i],
                ) && fully_mapped(resources, layout, page_size, end.regions[i])
            &&& before.setup matches BarSetup::Program { region } ==> bars::region_is(
                region,
                end.bars.last(),
            )
            &&& before.setup matches BarSetup::Mapping { region, requests, progress }
                ==> bars::region_is(region, end.bars.last())
            &&& before.setup is Program || before.setup is Mapping
        }),
{
    let last = events.len() - 1;
    let event = events[last];
    lemma_run_keeps_settled(resources, layout, page_size, config, states, events, actions, last);
    lemma_failure_finishes(
        resources,
        layout,
        page_size,
        states[last],
        event,
        states[last + 1],
        actions[last],
    );
}

proof fn lemma_run_keeps_settled(
    resources: VfioPciResources,
    layout: MsixLayout,
    page_size: u64,
    config: spec_fn(u32) -> u32,
    states: Seq<SetupState>,
    events: Seq<SetupEvent>,
    actions: Seq<SetupAction>,
    k: int,
)
    requires
        is_run(resources, layout, page_size, config, states, events, actions),
        settled(resources, layout, page_size, states[0]),
        0 <= k <= events.len(),
        k == events.len() ==> !ends_unmapped(events, actions),
    ensures
        settled(resources, layout, page_size, states[k]),
    decreases k,
{
    if k > 0 {
        let j = k - 1;
        lemma_run_keeps_settled(resources, layout, page_size, config, states, events, actions, j);
        let event = events[j];
        if actions[j] is Failed {
            lemma_failure_is_last(resources, layout, page_size, config, states, events, actions, j);
        }
        law_step_keeps_settled(
            resources,
            layout,
            page_size,
            states[j],
            event,
            states[k],
            actions[j],
        );
    }
}

proof fn lemma_run_keeps_apart(
    resources: VfioPciResources,
    layout: MsixLayout,
    page_size: u64,
    config: spec_fn(u32) -> u32,
    states: Seq<SetupState>,
    events: Seq<SetupEvent>,
    actions: Seq<SetupAction>,
    k: int,
)
    requires
        is_run(resources, layout, page_size, config, states, events, actions),
        all_bars_apart(states[0]),
        0 <= k <= events.len(),
    ensures
        all_bars_apart(states[k]),
    decreases k,
{
    if k > 0 {
        let j = k - 1;
        lemma_run_keeps_apart(resources, layout, page_size, config, states, events, actions, j);
        let event = events[j];
        law_step_keeps_bars_apart(
            resources,
            layout,
            page_size,
            states[j],
            event,
            states[k],
            actions[j],
        );
    }
}

/// Whether BAR slot `j` belongs to one of the settings from `first` on: as its own, or as the slot
/// after a 64-bit BAR.
pub open spec fn slot_is_set(settings: Seq<BarSetting>, first: int, j: int) -> bool {
    exists|a: int|
        first <= a < settings.len() && (#[trigger] settings[a]).bar_idx <= j < settings[a].bar_idx
            + bars::bar_slots(settings[a].bar_type)
}

/// Whether every memory BAR below slot `end` that the device has belongs to one of the settings from
/// `first` on.
pub open spec fn memory_bars_set(
    resources: VfioPciResources,
    config: spec_fn(u32) -> u32,
    settings: Seq<BarSetting>,
    first: int,
    end: int,
) -> bool {
    forall|j: int|
        0 <= j < end && #[trigger] resources.region_size(j) != 0 && !bars::is_io_bar(
            config(bar_register(j)),
        ) ==> slot_is_set(settings, first, j)
}

proof fn lemma_slot_stays_set(settings: Seq<BarSetting>, setting: BarSetting, first: int, j: int)
    requires
        slot_is_set(settings, first, j),
        0 <= first,
    ensures
        slot_is_set(settings.push(setting), first, j),
{
    let a = choose|a: int|
        first <= a < settings.len() && (#[trigger] settings[a]).bar_idx <= j < settings[a].bar_idx
            + bars::bar_slots(settings[a].bar_type);
    assert(settings.push(setting)[a] == settings[a]);
}

/// The next BAR that the device has is none of those before `i`.
proof fn lemma_next_bar_bounds(resources: VfioPciResources, i: int)
    ensures
        bars::next_bar(resources, i) <= NUM_BAR_REGS,
        i <= NUM_BAR_REGS ==> i <= bars::next_bar(resources, i),
    decreases NUM_BAR_REGS - i,
{
    if i < NUM_BAR_REGS && resources.region_size(i) == 0 {
        lemma_next_bar_bounds(resources, i + 1);
    }
}

/// The slots between `i` and the next BAR that the device has are empty.
proof fn lemma_no_bar_before_next(resources: VfioPciResources, i: int, j: int)
    requires
        0 <= i <= j < bars::next_bar(resources, i),
    ensures
        resources.region_size(j) == 0,
    decreases NUM_BAR_REGS - i,
{
    if i < NUM_BAR_REGS && resources.region_size(i) == 0 && i < j {
        lemma_no_bar_before_next(resources, i + 1, j);
    }
}

proof fn lemma_sought_leaves_out_no_bar(
    resources: VfioPciResources,
    config: spec_fn(u32) -> u32,
    settings: Seq<BarSetting>,
    first: int,
    from: int,
)
    requires
        memory_bars_set(resources, config, settings, first, from),
        0 <= from,
    ensures
        0 <= bars::next_bar(resources, from) <= NUM_BAR_REGS,
        memory_bars_set(
            resources,
            config,
            settings,
            first,
            bars::next_bar(resources, from),
        ),
{
    let next = bars::next_bar(resources, from);
    lemma_next_bar_bounds(resources, from);
    assert forall|j: int|
        0 <= j < next && #[trigger] resources.region_size(j) != 0 && !bars::is_io_bar(
            config(bar_register(j)),
        ) implies slot_is_set(settings, first, j) by {
        if from <= j {
            lemma_no_bar_before_next(resources, from, j);
        }
    }
}

/// As the BARs are set up, every memory BAR that was dealt with has been given a setting, as long
/// as every BAR can be set up.
pub proof fn law_step_leaves_out_no_bar(
    resources: VfioPciResources,
    layout: MsixLayout,
    page_size: u64,
    config: spec_fn(u32) -> u32,
    first: int,
    before: SetupState,
    event: SetupEvent,
    after: SetupState,
    action: SetupAction,
)
    requires
        bars::setup_wf(resources, layout, page_size, before.setup),
        bars::setup_event_fits(before.setup, event),
        bars::setup_step(resources, layout, page_size, before, event, after, action),
        event_reads_from(config, before.setup, event),
        0 <= first <= before.bars.len(),
        memory_bars_set(resources, config, before.bars, first, slots_reached(before.setup)),
        !(action is Failed),
    ensures
        first <= after.bars.len(),
        memory_bars_set(resources, config, after.bars, first, slots_reached(after.setup)),
{
    let reached = slots_reached(before.setup);
    match event {
        SetupEvent::ConfigDword(bar_cfg) => {
            if bars::is_io_bar(bar_cfg) {
                assert(memory_bars_set(resources, config, before.bars, first, reached + 1));
                lemma_sought_leaves_out_no_bar(
                    resources,
                    config,
                    before.bars,
                    first,
                    reached + 1,
                );
            } else {
                let setting = action->ProgramBar_0;
                assert forall|j: int|
                    0 <= j < slots_reached(after.setup) && #[trigger] resources.region_size(j) != 0
                        && !bars::is_io_bar(config(bar_register(j))) implies slot_is_set(
                    after.bars,
                    first,
                    j,
                ) by {
                    if j < reached {
                        lemma_slot_stays_set(before.bars, setting, first, j);
                    } else {
                        assert(after.bars[before.bars.len() as int] == setting);
                    }
                }
            }
        },
        _ => {
            lemma_sought_leaves_out_no_bar(resources, config, before.bars, first, reached);
        },
    }
}

/// A run that has started at the first BAR and ends because all BARs are set up has left out no
/// memory BAR that the device has: each is given a setting, or is the slot after a 64-bit BAR that
/// is given one.
pub proof fn law_done_run_leaves_out_no_bar(
    resources: VfioPciResources,
    layout: MsixLayout,
    page_size: u64,
    config: spec_fn(u32) -> u32,
    states: Seq<SetupState>,
    events: Seq<SetupEvent>,
    actions: Seq<SetupAction>,
)
    requires
        is_run(resources, layout, page_size, config, states, events, actions),
        states[0].setup is Start,
        actions.len() > 0,
        actions.last() is Done,
    ensures
        memory_bars_set(
            resources,
            config,
            states.last().bars,
            states[0].bars.len() as int,
            NUM_BAR_REGS as int,
        ),
{
    let n = events.len() as int;
    lemma_run_leaves_out_no_bar(resources, layout, page_size, config, states, events, actions, n);
    let event = events[n - 1];
    assert(states.last().setup is Finished);
}

proof fn lemma_run_leaves_out_no_bar(
    resources: VfioPciResources,
    layout: MsixLayout,
    page_size: u64,
    config: spec_fn(u32) -> u32,
    states: Seq<SetupState>,
    events: Seq<SetupEvent>,
    actions: Seq<SetupAction>,
    k: int,
)
    requires
        is_run(resources, layout, page_size, config, states, events, actions),
        states[0].setup is Start,
        actions.len() > 0,
        !(actions.last() is Failed),
        0 <= k <= events.len(),
    ensures
        states[0].bars.len() <= states[k].bars.len(),
        memory_bars_set(
            resources,
            config,
            states[k].bars,
            states[0].bars.len() as int,
            slots_reached(states[k].setup),
        ),
    decreases k,
{
    if k > 0 {
        let j = k - 1;
        lemma_run_leaves_out_no_bar(
            resources,
            layout,
            page_size,
            config,
            states,
            events,
            actions,
            j,
        );
        let event = events[j];
        if actions[j] is Failed {
            lemma_failure_is_last(resources, layout, page_size, config, states, events, actions, j);
        }
        law_step_leaves_out_no_bar(
            resources,
            layout,
            page_size,
            config,
            states[0].bars.len() as int,
            states[j],
            event,
            states[k],
            actions[j],
        );
    }
}

/// Whether a failure says to unmap the mapping at `host_addr` of this length.
pub open spec fn unmaps(action: SetupAction, host_addr: u64, length: usize) -> bool {
    action->unmap@.contains((host_addr, length))
}

/// Where a BAR fails to be mapped, everything that was mapped for it is to be unmapped: the areas
/// that were mapped in full, and the one that was being mapped, each once and nothing else.
pub proof fn law_failed_bar_leaves_nothing_mapped(
    resources: VfioPciResources,
    layout: MsixLayout,
    page_size: u64,
    before: SetupState,
    event: SetupEvent,
    after: SetupState,
    action: SetupAction,
)
    requires
        bars::setup_wf(resources, layout, page_size, before.setup),
        bars::setup_event_fits(before.setup, event),
        bars::setup_step(resources, layout, page_size, before, event, after, action),
        before.setup is Mapping,
        action is Failed,
    ensures
        ({
            let mmaps = before.setup->Mapping_region.mmaps@;
            let request = before.setup->requests@[mmaps.len() as int];
            &&& forall|i: int|
                0 <= i < mmaps.len() ==> unmaps(
                    action,
                    (#[trigger] mmaps[i]).host_addr,
                    mmaps[i].length,
                )
            &&& mapping::mapped_at(before.setup->progress) matches Some(host_addr) ==> unmaps(
                action,
                host_addr,
                request.length as usize,
            )
            &&& action->unmap@.len() == mmaps.len() + if mapping::mapped_at(
                before.setup->progress,
            ) is Some {
                1int
            } else {
                0int
            }
        }),
{
    let region = before.setup->Mapping_region;
    let requests = before.setup->requests@;
    let mmaps = region.mmaps@;
    let e = event->Area_0;
    let (progress, step) = choose|progress: AreaProgress, step: AreaStep|
        {
            &&& #[trigger] mapping::area_step(
                requests[mmaps.len() as int],
                before.setup->progress,
                e,
                progress,
                step,
            )
            &&& match step {
                AreaStep::Mapped(mmap) => bars::bar_continued(
                    resources,
                    region,
                    mmaps.push(mmap),
                    requests,
                    before,
                    after,
                    action,
                ),
                _ => {
                    &&& after.bars == before.bars
                    &&& after.regions == before.regions
                    &&& after.same_windows(before)
                    &&& bars::carries_out(step, mmaps, action)
                    &&& bars::goes_on(after.setup, region, mmaps, requests, progress)
                },
            }
        };
    match step {
        AreaStep::Mapped(mmap) => {
            let longer = mmaps.push(mmap);
            let (closed, refused) = choose|closed: AreaProgress, refused: AreaStep|
                {
                    &&& #[trigger] mapping::area_step(
                        requests[longer.len() as int],
                        AreaProgress::Fresh,
                        AreaEvent::Begin,
                        closed,
                        refused,
                    )
                    &&& bars::carries_out(refused, longer, action)
                    &&& bars::goes_on(after.setup, region, longer, requests, closed)
                };
            lemma_unmapped_on_failure(refused->unmap, longer);
            assert forall|i: int| 0 <= i < mmaps.len() implies unmaps(
                action,
                (#[trigger] mmaps[i]).host_addr,
                mmaps[i].length,
            ) by {
                assert(longer[i] == mmaps[i]);
            }
            assert(longer[mmaps.len() as int] == mmap);
        },
        _ => {
            lemma_unmapped_on_failure(step->unmap, mmaps);
        },
    }
}

proof fn lemma_unmapped_on_failure(own: Option<(u64, usize)>, mmaps: Seq<BarMmap>)
    ensures
        own matches Some(pair) ==> bars::unmapped_on_failure(own, mmaps).contains(pair),
        forall|i: int|
            0 <= i < mmaps.len() ==> bars::unmapped_on_failure(own, mmaps).contains(
                ((#[trigger] mmaps[i]).host_addr, mmaps[i].length),
            ),
{
    let all = bars::unmapped_on_failure(own, mmaps);
    let first: int = if own is Some {
        1
    } else {
        0
    };
    if let Some(pair) = own {
        assert(all[0] == pair);
    }
    assert forall|i: int| 0 <= i < mmaps.len() implies all.contains(
        ((#[trigger] mmaps[i]).host_addr, mmaps[i].length),
    ) by {
        assert(all[first + i] == (mmaps[i].host_addr, mmaps[i].length));
    }
}

} // verus!
