//! Laws of the start of a host: what it is started with, what precedes it, and
//! what follows.
use super::bring_up::lemma_resets_after_bring_up;
use super::clock::{clock_script, clocks_script, cru_clock_script};
use super::effects::{is_held, is_reset, reset_line_bit, reset_register};
use super::error::ProbeError;
use super::host::{bar_script, bus_info, config_window_of, outbound_script};
use super::laws::lemma_bring_up_guarded;
use super::phy::{
    combphy_accesses, combphy_clocks, combphy_script, cru_clocks_script, phy_script, prepare_script,
    wanted_phy,
};
use super::power::{power_domain_script, supply_script};
use super::probe::{
    announce_script, bring_up_script, node_script, node_view, perst_script, probe_script,
    reset_line, start_script,
    PcieNodeView,
};
use super::ranges::{
    lemma_offered_ranges, lemma_outbound_windows, memory_ranges, other_ranges,
};
use super::reset::{reset_script, resets_script};
use crate::fdt::{
    cells_of, node_clocks, node_is_pci, node_properties, node_ranges, node_regs, ClockView, PciSpace,
    RegFixed,
};
use crate::guard::{closed, lemma_closed_concat, lemma_run_advances, run_state};
use crate::model::{
    after_actions, lemma_after_concat, lemma_performed_concat,
    lemma_performed_straight, performed, Machine,
};
use crate::script::{
    due_action, is_running, maps_perst, next_state, start_state, Action, HostConfig, IatuMode,
    Instr, OnFailure, OutboundWindow, Slot, Window,
};
use vstd::prelude::*;

verus! {

/// Whether an action belongs to what precedes the start of a host: it maps none
/// of the windows that the host is started with, and does nothing to the host.
pub open spec fn is_preparation(action: Action) -> bool {
    match action {
        Action::MapWindow { slot, .. } => slot == Slot::Gpio || slot == Slot::Cru || slot
            == Slot::PhyGrf || slot == Slot::PipeGrf || slot == Slot::Phy,
        Action::Write { .. } => true,
        Action::Update { .. } => true,
        Action::DelayUs(_) => true,
        Action::DelayMs(_) => true,
        Action::PowerOn { .. } => true,
        Action::AcquireClock { .. } => true,
        Action::SetRate { .. } => true,
        Action::PeripheralEnable => true,
        _ => false,
    }
}

spec fn prepares(script: Seq<Instr>) -> bool {
    forall|i: int| 0 <= i < script.len() ==> is_preparation((#[trigger] script[i]).action)
}

proof fn lemma_prepares_concat(a: Seq<Instr>, b: Seq<Instr>)
    requires
        prepares(a),
        prepares(b),
    ensures
        prepares(a + b),
{
}

proof fn lemma_resets_prepare(reset_ids: Seq<u32>, asserted: bool)
    ensures
        prepares(resets_script(reset_ids, asserted)),
    decreases reset_ids.len(),
{
    if reset_ids.len() > 0 {
        lemma_resets_prepare(reset_ids.drop_last(), asserted);
        assert(prepares(reset_script(reset_ids.last(), asserted)));
        lemma_prepares_concat(
            resets_script(reset_ids.drop_last(), asserted),
            reset_script(reset_ids.last(), asserted),
        );
    }
}

proof fn lemma_clocks_prepare(apb_base: u64, clocks: Seq<ClockView>)
    ensures
        prepares(clocks_script(apb_base, clocks)),
    decreases clocks.len(),
{
    if clocks.len() > 0 {
        lemma_clocks_prepare(apb_base, clocks.drop_last());
        assert(prepares(clock_script(apb_base, clocks.last())));
        lemma_prepares_concat(
            clocks_script(apb_base, clocks.drop_last()),
            clock_script(apb_base, clocks.last()),
        );
    }
}

proof fn lemma_cru_clocks_prepare(clock_ids: Seq<usize>)
    ensures
        prepares(cru_clocks_script(clock_ids)),
    decreases clock_ids.len(),
{
    if clock_ids.len() > 0 {
        lemma_cru_clocks_prepare(clock_ids.drop_last());
        assert(prepares(cru_clock_script(clock_ids.last())));
        lemma_prepares_concat(
            cru_clocks_script(clock_ids.drop_last()),
            cru_clock_script(clock_ids.last()),
        );
    }
}

proof fn lemma_phy_prepares(phys: Seq<u32>)
    ensures
        prepares(phy_script(phys)),
{
    if let Some(phy) = wanted_phy(phys) {
        lemma_cru_clocks_prepare(combphy_clocks(phy.id));
        let config = combphy_script(phy);
        assert(prepares(config)) by {
            assert forall|i: int| 0 <= i < config.len() implies is_preparation(
                (#[trigger] config[i]).action,
            ) by {
                if i >= 3 {
                    assert(config[i].action == combphy_accesses(phy.id)[i - 3]);
                }
            }
        }
        assert(prepares(reset_script(phy.apb_reset, true)));
        assert(prepares(reset_script(phy.phy_reset, true)));
        assert(prepares(reset_script(phy.apb_reset, false)));
        assert(prepares(reset_script(phy.phy_reset, false)));
        assert(prepares(prepare_script(phy)));
    }
}

proof fn lemma_bring_up_prepares(node: PcieNodeView, apb_base: u64, devices: usize)
    ensures
        prepares(bring_up_script(node, apb_base, devices as int)),
{
    lemma_resets_prepare(node.resets, true);
    lemma_resets_prepare(node.resets, false);
    lemma_clocks_prepare(apb_base, node.clocks);
    lemma_phy_prepares(node.phys);
    assert(prepares(power_domain_script(devices as int)));
    assert(prepares(supply_script(node.supply)));
}

/// A node makes a host unless it lacks the first register range, or the second,
/// or has neither a third nor a range of its own that can be the configuration
/// window.
pub proof fn lemma_refusals(node: PcieNodeView, devices: usize)
    ensures
        node.regs.len() == 0 ==> probe_script(node, devices as int) == Err::<
            Seq<Instr>,
            ProbeError,
        >(ProbeError::NoApbRegister),
        node.regs.len() == 1 ==> probe_script(node, devices as int) == Err::<
            Seq<Instr>,
            ProbeError,
        >(ProbeError::NoDbiRegister),
        node.regs.len() > 2 ==> probe_script(node, devices as int) is Ok,
        node.regs.len() == 2 ==> (probe_script(node, devices as int) is Ok <==> exists|i: int|
            0 <= i < node.ranges.len() && (#[trigger] node.ranges[i]).space == PciSpace::Memory32
                && node.ranges[i].size == 0x10_0000 && node.ranges[i].cpu_address
                == node.ranges[i].bus_address),
        node.regs.len() == 2 && !(probe_script(node, devices as int) is Ok) ==> probe_script(
            node,
            devices as int,
        ) == Err::<Seq<Instr>, ProbeError>(ProbeError::NoConfigWindow),
{
    if node.regs.len() == 2 {
        lemma_config_found(node, 0);
    }
}

proof fn lemma_config_found(node: PcieNodeView, from: int)
    requires
        0 <= from <= node.ranges.len(),
    ensures
        super::host::first_config(node.ranges, from) is Some <==> exists|i: int|
            from <= i < node.ranges.len() && (#[trigger] node.ranges[i]).space
                == PciSpace::Memory32 && node.ranges[i].size == 0x10_0000
                && node.ranges[i].cpu_address == node.ranges[i].bus_address,
    decreases node.ranges.len() - from,
{
    if from < node.ranges.len() {
        lemma_config_found(node, from + 1);
        if super::host::can_be_config(node.ranges[from]) {
            assert(node.ranges[from].space == PciSpace::Memory32);
        }
    }
}

/// How many instructions precede the bring-up.
spec fn perst_len(node: PcieNodeView) -> int {
    perst_script(reset_line(node.reset_gpios, node.regs[0].address)).len() as int
}

/// Which instruction starts the host.
spec fn start_at(node: PcieNodeView, devices: usize) -> int {
    perst_len(node) + bring_up_script(node, node.regs[0].address, devices as int).len() + 3
}

/// The parts of the script.
proof fn lemma_parts(node: PcieNodeView, devices: usize)
    requires
        probe_script(node, devices as int) is Ok,
    ensures
        ({
            let script = probe_script(node, devices as int)->Ok_0;
            let cfg = config_window_of(node.regs, node.ranges)->0;
            let reset = reset_line(node.reset_gpios, node.regs[0].address);
            let bring_up = bring_up_script(node, node.regs[0].address, devices as int);
            let s = start_at(node, devices);
            let p = perst_len(node);
            &&& node.regs.len() >= 2
            &&& config_window_of(node.regs, node.ranges) is Some
            &&& script.len() == s + 1 + announce_script(node, cfg).len()
            &&& p == if reset is Some {
                1int
            } else {
                0
            }
            &&& forall|i: int| 0 <= i < p ==> script[i] == perst_script(reset)[i]
            &&& script.subrange(p, s - 3) == bring_up
            &&& script.subrange(s - 3, s + 1) == start_script(node, cfg, reset)
            &&& script.subrange(s + 1, script.len() as int) == announce_script(node, cfg)
        }),
{
    let script = probe_script(node, devices as int)->Ok_0;
    let cfg = config_window_of(node.regs, node.ranges)->0;
    let reset = reset_line(node.reset_gpios, node.regs[0].address);
    let bring_up = bring_up_script(node, node.regs[0].address, devices as int);
    let s = start_at(node, devices);
    let p = perst_len(node);
    assert(script == perst_script(reset) + bring_up + start_script(node, cfg, reset)
        + announce_script(node, cfg));
    assert(script.subrange(p, s - 3) =~= bring_up);
    assert(script.subrange(s - 3, s + 1) =~= start_script(node, cfg, reset));
    assert(script.subrange(s + 1, script.len() as int) =~= announce_script(node, cfg));
}

/// Which actions are where.
proof fn lemma_places(node: PcieNodeView, devices: usize, i: int)
    requires
        probe_script(node, devices as int) is Ok,
        0 <= i < probe_script(node, devices as int)->Ok_0.len(),
    ensures
        ({
            let script = probe_script(node, devices as int)->Ok_0;
            let reset = reset_line(node.reset_gpios, node.regs[0].address);
            let s = start_at(node, devices);
            &&& i < perst_len(node) ==> i == 0 && reset is Some && script[i] == perst_script(
                reset,
            )[0]
            &&& perst_len(node) <= i < s - 3 ==> is_preparation(script[i].action)
            &&& i > s ==> !(script[i].action is MapWindow) && !(script[i].action is StartHost)
        }),
{
    let script = probe_script(node, devices as int)->Ok_0;
    let cfg = config_window_of(node.regs, node.ranges)->0;
    let s = start_at(node, devices);
    let p = perst_len(node);
    lemma_parts(node, devices);
    lemma_bring_up_prepares(node, node.regs[0].address, devices);
    if p <= i < s - 3 {
        assert(script.subrange(p, s - 3)[i - p] == script[i]);
    }
    if i > s {
        assert(script.subrange(s + 1, script.len() as int)[i - s - 1] == script[i]);
        let outbound = outbound_script(node.ranges, cfg.0, cfg.1);
        let bars = bar_script(node.ranges, cfg.0, cfg.1);
        let k = i - s - 1;
        let n = outbound.len() as int;
        let m = bars.len() as int;
        if k < n {
            assert(announce_script(node, cfg)[k] == outbound[k]);
        } else if k < n + 2 {
        } else if k < n + 2 + m {
            assert(announce_script(node, cfg)[k] == bars[k - n - 2]);
        }
    }
}

/// A host is started once.
pub proof fn lemma_started_once(node: PcieNodeView, devices: usize)
    requires
        probe_script(node, devices as int) is Ok,
    ensures
        exists|s: int|
            0 <= s < probe_script(node, devices as int)->Ok_0.len() && (#[trigger] probe_script(
                node,
                devices as int,
            )->Ok_0[s]).action is StartHost,
        forall|s: int, t: int|
            #![trigger probe_script(node, devices as int)->Ok_0[s], probe_script(
                node,
                devices as int,
            )->Ok_0[t]]
            0 <= s < probe_script(node, devices as int)->Ok_0.len() && 0 <= t < probe_script(
                node,
                devices as int,
            )->Ok_0.len() && probe_script(node, devices as int)->Ok_0[s].action is StartHost
                && probe_script(node, devices as int)->Ok_0[t].action is StartHost ==> s == t,
{
    let script = probe_script(node, devices as int)->Ok_0;
    let s = start_at(node, devices);
    lemma_parts(node, devices);
    assert(script.subrange(s - 3, s + 1)[3] == script[s]);
    assert forall|t: int|
        #![trigger script[t]]
        0 <= t < script.len() && script[t].action is StartHost implies t == s by {
        lemma_start_place(node, devices, t);
    }
}

proof fn lemma_start_place(node: PcieNodeView, devices: usize, s: int)
    requires
        probe_script(node, devices as int) is Ok,
        0 <= s < probe_script(node, devices as int)->Ok_0.len(),
        probe_script(node, devices as int)->Ok_0[s].action is StartHost,
    ensures
        s == start_at(node, devices),
{
    let script = probe_script(node, devices as int)->Ok_0;
    let at = start_at(node, devices);
    lemma_parts(node, devices);
    lemma_places(node, devices, s);
    if at - 3 <= s <= at {
        assert(script.subrange(at - 3, at + 1)[s - at + 3] == script[s]);
    }
}

/// The address of the GPIO bank that a phandle stands for.
pub open spec fn bank_of_phandle(phandle: u32) -> Option<u64> {
    if phandle == 0xf8 || phandle == 0x104 {
        Some(0xfd8a_0000)
    } else if phandle == 0xf9 || phandle == 0x105 {
        Some(0xfec2_0000)
    } else if phandle == 0xfa || phandle == 0x106 {
        Some(0xfec3_0000)
    } else if phandle == 0xfb || phandle == 0x107 {
        Some(0xfec4_0000)
    } else if phandle == 0xfc || phandle == 0x108 || phandle == 0x10e {
        Some(0xfec5_0000)
    } else {
        None
    }
}

/// Whether the cells of `reset-gpios` name a pin.
pub open spec fn names_pin(cells: Option<Seq<u32>>) -> bool {
    cells matches Some(list) && list.len() >= 2 && list[1] <= 255
}

/// Whether the cells of `reset-gpios` name a bank.
pub open spec fn names_bank(cells: Option<Seq<u32>>) -> bool {
    cells matches Some(list) && list.len() >= 1 && bank_of_phandle(list[0]) is Some
}

/// A host whose `reset-gpios` names a bank and a pin is started with that very
/// line: the pin is the second cell, its base the bank of the first, and it is
/// active high where the third cell is missing or even. The script begins with
/// mapping that bank for the line.
pub proof fn lemma_described_reset_line(node: PcieNodeView, devices: usize, s: int)
    requires
        probe_script(node, devices as int) is Ok,
        0 <= s < probe_script(node, devices as int)->Ok_0.len(),
        probe_script(node, devices as int)->Ok_0[s].action is StartHost,
        names_pin(node.reset_gpios),
        names_bank(node.reset_gpios),
    ensures
        ({
            let script = probe_script(node, devices as int)->Ok_0;
            let cells = node.reset_gpios->0;
            &&& script[s].action->perst matches Some(line) && {
                &&& line.pin == cells[1]
                &&& line.active_high == (cells.len() == 2 || cells[2] % 2 == 0)
                &&& Some(line.base) == bank_of_phandle(cells[0])
            }
            &&& script[0].action == Action::MapWindow {
                slot: Slot::Perst,
                window: Window { base: bank_of_phandle(cells[0])->0, size: 0x110 },
            }
        }),
{
    lemma_reset_lines(node, devices, s);
}

/// Which reset line a host is started with, whatever its node says. The pin and
/// its polarity are those that `reset-gpios` names, and so is the bank; what it
/// does not name, the hosts at 0xfe18_0000 and 0xfe19_0000 have of their own, and
/// the others are started without a line. The bank of the line is mapped first,
/// no other is, and where that fails the script goes on.
pub proof fn lemma_reset_lines(node: PcieNodeView, devices: usize, s: int)
    requires
        probe_script(node, devices as int) is Ok,
        0 <= s < probe_script(node, devices as int)->Ok_0.len(),
        probe_script(node, devices as int)->Ok_0[s].action is StartHost,
    ensures
        ({
            let script = probe_script(node, devices as int)->Ok_0;
            let cells = node.reset_gpios;
            let apb_base = node.regs[0].address;
            let known = apb_base == 0xfe18_0000 || apb_base == 0xfe19_0000;
            let perst = script[s].action->perst;
            &&& perst is Some <==> (names_pin(cells) || known) && (names_bank(cells) || known)
            &&& perst matches Some(line) ==> {
                &&& names_pin(cells) ==> line.pin == cells->0[1] && line.active_high == (
                cells->0.len() == 2 || cells->0[2] % 2 == 0)
                &&& !names_pin(cells) ==> line.active_high && line.pin == if apb_base
                    == 0xfe18_0000 {
                    11int
                } else {
                    2
                }
                &&& names_bank(cells) ==> Some(line.base) == bank_of_phandle(cells->0[0])
                &&& !names_bank(cells) ==> line.base == if apb_base == 0xfe18_0000 {
                    0xfec4_0000int
                } else {
                    0xfec5_0000
                }
                &&& script[0] == Instr {
                    action: Action::MapWindow {
                        slot: Slot::Perst,
                        window: Window { base: line.base, size: 0x110 },
                    },
                    on_success: 0,
                    on_failure: OnFailure::Continue,
                }
            }
            &&& forall|i: int|
                0 <= i < script.len() && maps_perst((#[trigger] script[i]).action) ==> i == 0
                    && perst is Some
        }),
{
    let script = probe_script(node, devices as int)->Ok_0;
    let reset = reset_line(node.reset_gpios, node.regs[0].address);
    let cfg = config_window_of(node.regs, node.ranges)->0;
    lemma_start_place(node, devices, s);
    lemma_parts(node, devices);
    assert(script.subrange(s - 3, s + 1)[3] == script[s]);
    assert(script[s].action == start_script(node, cfg, reset)[3].action);
    assert(script[s].action->perst == reset);
    assert forall|i: int|
        0 <= i < script.len() && maps_perst((#[trigger] script[i]).action) implies i == 0
        && reset is Some by {
        lemma_places(node, devices, i);
        if s - 3 <= i <= s {
            assert(script.subrange(s - 3, s + 1)[i - s + 3] == script[i]);
        }
    }
    if reset is Some {
        lemma_places(node, devices, 0);
    }
}

/// What a host is started with: its first three windows, as large as the node
/// says or as they usually are, and its buses. Where one of these windows, or one
/// of the PHY, cannot be mapped, or the host does not start, the probe ends; no
/// other failure ends it.
pub proof fn lemma_started_with(node: PcieNodeView, devices: usize, s: int)
    requires
        probe_script(node, devices as int) is Ok,
        0 <= s < probe_script(node, devices as int)->Ok_0.len(),
        probe_script(node, devices as int)->Ok_0[s].action is StartHost,
    ensures
        ({
            let script = probe_script(node, devices as int)->Ok_0;
            let cfg = config_window_of(node.regs, node.ranges)->0;
            &&& s >= 3
            &&& config_window_of(node.regs, node.ranges) is Some
            &&& script[s - 3].action == Action::MapWindow {
                slot: Slot::Apb,
                window: Window {
                    base: node.regs[0].address,
                    size: match node.regs[0].size {
                        Some(size) => size as usize,
                        None => 0x1_0000,
                    },
                },
            }
            &&& script[s - 2].action == Action::MapWindow {
                slot: Slot::Dbi,
                window: Window {
                    base: node.regs[1].address,
                    size: match node.regs[1].size {
                        Some(size) => size as usize,
                        None => 0x40_0000,
                    },
                },
            }
            &&& script[s - 1].action == Action::MapWindow {
                slot: Slot::Cfg,
                window: Window { base: cfg.0, size: cfg.1 as usize },
            }
            &&& script[s].action->config == HostConfig {
                apb_phys: node.regs[0].address,
                cfg_phys: cfg.0,
                cfg_size: cfg.1 as usize,
                bus_base: bus_info(node.bus_range).0,
                logical_bus_end: bus_info(node.bus_range).1,
                iatu_mode: IatuMode::Unroll,
            }
            &&& forall|i: int|
                s - 3 <= i <= s ==> (#[trigger] script[i]).on_success == 0 && script[i].on_failure
                    == OnFailure::Abort
            &&& forall|i: int|
                0 <= i < script.len() ==> ((#[trigger] script[i]).on_failure == OnFailure::Abort
                    <==> has_to_work(script[i].action))
        }),
{
    let script = probe_script(node, devices as int)->Ok_0;
    let reset = reset_line(node.reset_gpios, node.regs[0].address);
    let cfg = config_window_of(node.regs, node.ranges)->0;
    lemma_start_place(node, devices, s);
    lemma_parts(node, devices);
    let start = script.subrange(s - 3, s + 1);
    assert(start[0] == script[s - 3]);
    assert(start[1] == script[s - 2]);
    assert(start[2] == script[s - 1]);
    assert(start[3] == script[s]);
    assert(node.regs[0].size is None ==> 0x1_0000u64 as usize == 0x1_0000);
    assert forall|i: int| 0 <= i < script.len() implies ((#[trigger] script[i]).on_failure
        == OnFailure::Abort <==> has_to_work(script[i].action)) by {
        lemma_places(node, devices, i);
        if s - 3 <= i <= s {
            assert(start[i - s + 3] == script[i]);
        }
        lemma_bring_up_goes_on(node, devices);
        let p = perst_len(node);
        if p <= i < s - 3 {
            assert(script.subrange(p, s - 3)[i - p] == script[i]);
        }
        if i > s {
            lemma_after_start(node, devices, i - s - 1);
        }
    }
}

/// Whether the probe ends where the action fails: it maps a window of the PHY or
/// of the host, or starts the host.
pub open spec fn has_to_work(action: Action) -> bool {
    match action {
        Action::MapWindow { slot, .. } => slot == Slot::PhyGrf || slot == Slot::PipeGrf || slot
            == Slot::Phy || slot == Slot::Apb || slot == Slot::Dbi || slot == Slot::Cfg,
        Action::StartHost { .. } => true,
        _ => false,
    }
}

spec fn goes_on(script: Seq<Instr>) -> bool {
    forall|i: int|
        0 <= i < script.len() ==> ((#[trigger] script[i]).on_failure == OnFailure::Abort
            <==> has_to_work(script[i].action))
}

proof fn lemma_goes_on_concat(a: Seq<Instr>, b: Seq<Instr>)
    requires
        goes_on(a),
        goes_on(b),
    ensures
        goes_on(a + b),
{
}

proof fn lemma_resets_go_on(reset_ids: Seq<u32>, asserted: bool)
    ensures
        goes_on(resets_script(reset_ids, asserted)),
    decreases reset_ids.len(),
{
    if reset_ids.len() > 0 {
        lemma_resets_go_on(reset_ids.drop_last(), asserted);
        assert(goes_on(reset_script(reset_ids.last(), asserted)));
        lemma_goes_on_concat(
            resets_script(reset_ids.drop_last(), asserted),
            reset_script(reset_ids.last(), asserted),
        );
    }
}

proof fn lemma_clocks_go_on(apb_base: u64, clocks: Seq<ClockView>)
    ensures
        goes_on(clocks_script(apb_base, clocks)),
    decreases clocks.len(),
{
    if clocks.len() > 0 {
        lemma_clocks_go_on(apb_base, clocks.drop_last());
        assert(goes_on(clock_script(apb_base, clocks.last())));
        lemma_goes_on_concat(
            clocks_script(apb_base, clocks.drop_last()),
            clock_script(apb_base, clocks.last()),
        );
    }
}

proof fn lemma_cru_clocks_go_on(clock_ids: Seq<usize>)
    ensures
        goes_on(cru_clocks_script(clock_ids)),
    decreases clock_ids.len(),
{
    if clock_ids.len() > 0 {
        lemma_cru_clocks_go_on(clock_ids.drop_last());
        assert(goes_on(cru_clock_script(clock_ids.last())));
        lemma_goes_on_concat(
            cru_clocks_script(clock_ids.drop_last()),
            cru_clock_script(clock_ids.last()),
        );
    }
}

/// What follows the start, by what the ranges of the node say.
proof fn lemma_after_start(node: PcieNodeView, devices: usize, k: int)
    requires
        probe_script(node, devices as int) is Ok,
    ensures
        ({
            let script = probe_script(node, devices as int)->Ok_0;
            let s = start_at(node, devices);
            let cfg = config_window_of(node.regs, node.ranges)->0;
            let outbound = outbound_script(node.ranges, cfg.0, cfg.1);
            let bars = bar_script(node.ranges, cfg.0, cfg.1);
            let n = outbound.len() as int;
            let m = bars.len() as int;
            &&& script.len() == s + 1 + n + 2 + m + 1
            &&& 0 <= k < n ==> script[s + 1 + k] == outbound[k]
            &&& k == n ==> script[s + 1 + k].action == Action::UnmaskLegacyIntx
            &&& k == n + 1 ==> script[s + 1 + k].action == (Action::RegisterLegacyIrq {
                logical_bus_end: bus_info(node.bus_range).1,
            })
            &&& n + 2 <= k < n + 2 + m ==> script[s + 1 + k] == bars[k - n - 2]
            &&& k == n + 2 + m ==> script[s + 1 + k].action == Action::RegisterController
            &&& 0 <= k < n + 3 + m ==> script[s + 1 + k].on_success == 0 && script[s + 1
                + k].on_failure == OnFailure::Continue
        }),
{
    let script = probe_script(node, devices as int)->Ok_0;
    let s = start_at(node, devices);
    let cfg = config_window_of(node.regs, node.ranges)->0;
    lemma_parts(node, devices);
    let after = script.subrange(s + 1, script.len() as int);
    assert(after == announce_script(node, cfg));
    if 0 <= k < after.len() {
        assert(after[k] == script[s + 1 + k]);
    }
}

/// What follows the start of a host: an outbound window for each of its memory
/// ranges beside the configuration window, the k-th in region k + 1 or the last;
/// its interrupts, up to its last bus; the offer of each of its ranges beside the
/// configuration window; and at last its announcement. Whether one of these is
/// taken or not, the next follows.
pub proof fn lemma_announced_with(node: PcieNodeView, devices: usize, s: int, k: int)
    requires
        probe_script(node, devices as int) is Ok,
        0 <= s < probe_script(node, devices as int)->Ok_0.len(),
        probe_script(node, devices as int)->Ok_0[s].action is StartHost,
    ensures
        ({
            let script = probe_script(node, devices as int)->Ok_0;
            let cfg = config_window_of(node.regs, node.ranges)->0;
            let memory = memory_ranges(node.ranges, cfg.0, cfg.1);
            let offered = other_ranges(node.ranges, cfg.0, cfg.1);
            let n = memory.len() as int;
            let m = offered.len() as int;
            &&& script.len() == s + 1 + n + 2 + m + 1
            &&& 0 <= k < n ==> script[s + 1 + k].action == (Action::ProgramWindow {
                region: if k < 255 {
                    (k + 1) as u8
                } else {
                    255
                },
                outbound: OutboundWindow {
                    cpu_base: memory[k].cpu_address,
                    pci_base: memory[k].bus_address,
                    size: memory[k].size,
                },
            })
            &&& script[s + 1 + n].action == Action::UnmaskLegacyIntx
            &&& script[s + 2 + n].action == (Action::RegisterLegacyIrq {
                logical_bus_end: bus_info(node.bus_range).1,
            })
            &&& 0 <= k < m ==> script[s + 3 + n + k].action == (Action::SetBarRange {
                range: offered[k],
                mem64: offered[k].space == PciSpace::Memory32,
            })
            &&& script[s + 3 + n + m].action == Action::RegisterController
            &&& s < k < script.len() ==> script[k].on_success == 0 && script[k].on_failure
                == OnFailure::Continue
        }),
{
    let cfg = config_window_of(node.regs, node.ranges)->0;
    let n = memory_ranges(node.ranges, cfg.0, cfg.1).len() as int;
    let m = other_ranges(node.ranges, cfg.0, cfg.1).len() as int;
    lemma_start_place(node, devices, s);
    lemma_outbound_windows(node.ranges, cfg.0, cfg.1, k);
    lemma_offered_ranges(node.ranges, cfg.0, cfg.1, k);
    lemma_after_start(node, devices, k);
    lemma_after_start(node, devices, n);
    lemma_after_start(node, devices, n + 1);
    lemma_after_start(node, devices, n + 2 + k);
    lemma_after_start(node, devices, n + 2 + m);
    lemma_after_start(node, devices, k - s - 1);
}

/// A host is used only by what follows its start: nothing before programs a
/// window, lets interrupts through, offers a range or announces anything.
pub proof fn lemma_nothing_before_start(node: PcieNodeView, devices: usize, s: int, i: int)
    requires
        probe_script(node, devices as int) is Ok,
        0 <= i < s < probe_script(node, devices as int)->Ok_0.len(),
        probe_script(node, devices as int)->Ok_0[s].action is StartHost,
    ensures
        is_preparation(probe_script(node, devices as int)->Ok_0[i].action) || (probe_script(
            node,
            devices as int,
        )->Ok_0[i].action matches Action::MapWindow { slot, .. } && (slot == Slot::Perst || slot
            == Slot::Apb || slot == Slot::Dbi || slot == Slot::Cfg)),
{
    let script = probe_script(node, devices as int)->Ok_0;
    lemma_start_place(node, devices, s);
    lemma_parts(node, devices);
    lemma_places(node, devices, i);
    if s - 3 <= i {
        assert(script.subrange(s - 3, s + 1)[i - s + 3] == script[i]);
    }
}

/// The host is brought up between the mapping of its reset line and that of its
/// own windows, by its first register range.
pub proof fn lemma_brought_up_before_start(node: PcieNodeView, devices: usize, s: int)
    requires
        probe_script(node, devices as int) is Ok,
        0 <= s < probe_script(node, devices as int)->Ok_0.len(),
        probe_script(node, devices as int)->Ok_0[s].action is StartHost,
    ensures
        probe_script(node, devices as int)->Ok_0.subrange(
            if probe_script(node, devices as int)->Ok_0[s].action->perst is Some {
                1
            } else {
                0
            },
            s - 3,
        ) == bring_up_script(node, node.regs[0].address, devices as int),
{
    let script = probe_script(node, devices as int)->Ok_0;
    lemma_start_place(node, devices, s);
    lemma_parts(node, devices);
    assert(script.subrange(s - 3, s + 1)[3] == script[s]);
}

/// When the host is started, all its resets have been released, where nothing
/// has failed.
pub proof fn lemma_released_at_start(
    machine: Machine,
    node: PcieNodeView,
    devices: usize,
    s: int,
    reset_id: u32,
)
    requires
        probe_script(node, devices as int) is Ok,
        0 <= s < probe_script(node, devices as int)->Ok_0.len(),
        probe_script(node, devices as int)->Ok_0[s].action is StartHost,
        is_reset(reset_id),
        node.resets.contains(reset_id),
    ensures
        !is_held(
            after_actions(
                machine,
                performed(probe_script(node, devices as int)->Ok_0.take(s), 0),
            ).registers,
            reset_id,
        ),
{
    let script = probe_script(node, devices as int)->Ok_0;
    let cfg = config_window_of(node.regs, node.ranges)->0;
    let reset = reset_line(node.reset_gpios, node.regs[0].address);
    let perst = perst_script(reset);
    let bring_up = bring_up_script(node, node.regs[0].address, devices as int);
    let maps = start_script(node, cfg, reset).take(3);
    lemma_start_place(node, devices, s);
    lemma_parts(node, devices);
    assert(script.take(s) =~= perst + bring_up + maps);
    lemma_bring_up_guarded(node, node.regs[0].address, devices);
    assert(closed(perst));
    lemma_closed_concat(perst, bring_up);
    lemma_performed_concat(perst + bring_up, maps, 0);
    lemma_performed_concat(perst, bring_up, 0);
    lemma_performed_straight(perst, 0);
    lemma_performed_straight(maps, 0);
    let first = performed(perst, 0);
    let second = performed(bring_up, 0);
    let third = performed(maps, 0);
    lemma_after_concat(machine, first + second, third);
    lemma_after_concat(machine, first, second);
    let mapped = after_actions(machine, first);
    let up = after_actions(mapped, second);
    lemma_resets_after_bring_up(
        mapped,
        node,
        node.regs[0].address,
        devices,
        reset_register(reset_id),
        reset_line_bit(reset_id),
    );
    let at = node.resets.index_of(reset_id);
    assert(node.resets[at] == reset_id);
    lemma_mapping_only(up, third);
}

proof fn lemma_mapping_only(machine: Machine, actions: Seq<Action>)
    requires
        forall|i: int| 0 <= i < actions.len() ==> (#[trigger] actions[i]) is MapWindow,
    ensures
        after_actions(machine, actions).registers == machine.registers,
    decreases actions.len(),
{
    if actions.len() > 0 {
        assert(actions[actions.len() - 1] is MapWindow);
        assert forall|i: int| 0 <= i < actions.drop_last().len() implies (
        #[trigger] actions.drop_last()[i]) is MapWindow by {
            assert(actions[i] is MapWindow);
        }
        lemma_mapping_only(machine, actions.drop_last());
    }
}

proof fn lemma_bring_up_goes_on(node: PcieNodeView, devices: usize)
    ensures
        goes_on(bring_up_script(node, node.regs[0].address, devices as int)),
{
    let apb_base = node.regs[0].address;
    lemma_resets_go_on(node.resets, true);
    lemma_resets_go_on(node.resets, false);
    lemma_clocks_go_on(apb_base, node.clocks);
    if let Some(phy) = wanted_phy(node.phys) {
        lemma_cru_clocks_go_on(combphy_clocks(phy.id));
        let config = combphy_script(phy);
        assert(goes_on(config)) by {
            assert forall|i: int| 0 <= i < config.len() implies ((#[trigger] config[i]).on_failure
                == OnFailure::Abort <==> has_to_work(config[i].action)) by {
                if i >= 3 {
                    assert(config[i].action == combphy_accesses(phy.id)[i - 3]);
                }
            }
        }
        assert(goes_on(reset_script(phy.apb_reset, true)));
        assert(goes_on(reset_script(phy.phy_reset, true)));
        assert(goes_on(reset_script(phy.apb_reset, false)));
        assert(goes_on(reset_script(phy.phy_reset, false)));
        assert(goes_on(prepare_script(phy)));
    }
    assert(goes_on(phy_script(node.phys)));
    assert(goes_on(power_domain_script(devices as int)));
    assert(goes_on(supply_script(node.supply)));
}

/// In every run that comes to the start of the host, the host is started with the
/// reset line exactly if that line is known and its bank could be mapped.
pub proof fn lemma_started_with_line(
    node: PcieNodeView,
    devices: usize,
    ok: spec_fn(int) -> bool,
    steps: nat,
)
    requires
        probe_script(node, devices as int) is Ok,
        ({
            let script = probe_script(node, devices as int)->Ok_0;
            let state = run_state(script, ok, steps);
            is_running(script, state) && script[state.pc].action is StartHost
        }),
    ensures
        ({
            let script = probe_script(node, devices as int)->Ok_0;
            let state = run_state(script, ok, steps);
            due_action(script, state) == Action::StartHost {
                config: script[state.pc].action->config,
                perst: if ok(0) {
                    script[state.pc].action->perst
                } else {
                    None
                },
            }
        }),
{
    let script = probe_script(node, devices as int)->Ok_0;
    let s = run_state(script, ok, steps).pc;
    lemma_reset_lines(node, devices, s);
    lemma_started_with(node, devices, s);
    assert(steps > 0);
    lemma_line_stays_known(node, devices, ok, s, steps);
}

proof fn lemma_line_stays_known(
    node: PcieNodeView,
    devices: usize,
    ok: spec_fn(int) -> bool,
    s: int,
    steps: nat,
)
    requires
        probe_script(node, devices as int) is Ok,
        0 <= s < probe_script(node, devices as int)->Ok_0.len(),
        probe_script(node, devices as int)->Ok_0[s].action is StartHost,
        steps > 0,
    ensures
        ({
            let script = probe_script(node, devices as int)->Ok_0;
            let state = run_state(script, ok, steps);
            &&& script[s].action->perst is Some ==> state.pc > 0 && state.perst == ok(0)
            &&& script[s].action->perst is None ==> !state.perst
        }),
    decreases steps,
{
    let script = probe_script(node, devices as int)->Ok_0;
    lemma_reset_lines(node, devices, s);
    let before = run_state(script, ok, (steps - 1) as nat);
    if steps > 1 {
        lemma_line_stays_known(node, devices, ok, s, (steps - 1) as nat);
        if is_running(script, before) {
            assert(maps_perst(script[before.pc].action) ==> before.pc == 0);
            lemma_run_advances(script, before, ok(before.pc));
        }
    } else {
        assert(before == start_state());
        assert(is_running(script, before));
        assert(maps_perst(script[0].action) <==> script[s].action->perst is Some);
        assert(run_state(script, ok, 1) == next_state(script, before, ok(0)));
    }
}

/// What the driver reads in a node, property by property.
pub proof fn lemma_node_fields(node: fdt_edit::NodeType<'_>, regs: Seq<RegFixed>)
    ensures
        ({
            let properties = node_properties(node);
            let read = node_view(node, regs);
            &&& read.regs == regs
            &&& node_ranges(node) matches Some(ranges) ==> read.ranges == ranges
            &&& node_ranges(node) is None ==> read.ranges.len() == 0
            &&& properties.dom().contains("bus-range"@) && properties["bus-range"@].len() >= 8
                ==> read.bus_range == Some(
                (
                    cells_of(properties["bus-range"@])[0],
                    cells_of(properties["bus-range"@])[1],
                ),
            )
            &&& !properties.dom().contains("bus-range"@) || properties["bus-range"@].len() < 8
                ==> read.bus_range is None
            &&& properties.dom().contains("reset-gpios"@) ==> read.reset_gpios == Some(
                cells_of(properties["reset-gpios"@]),
            )
            &&& !properties.dom().contains("reset-gpios"@) ==> read.reset_gpios is None
            &&& properties.dom().contains("vpcie3v3-supply"@)
                && properties["vpcie3v3-supply"@].len() >= 4 ==> read.supply == Some(
                cells_of(properties["vpcie3v3-supply"@])[0],
            )
            &&& !properties.dom().contains("vpcie3v3-supply"@)
                || properties["vpcie3v3-supply"@].len() < 4 ==> read.supply is None
            &&& properties.dom().contains("resets"@) ==> read.resets.len()
                == properties["resets"@].len() / 8 && forall|i: int|
                0 <= i < read.resets.len() ==> #[trigger] read.resets[i] == cells_of(
                    properties["resets"@],
                )[2 * i + 1]
            &&& !properties.dom().contains("resets"@) ==> read.resets.len() == 0
            &&& read.clocks == node_clocks(node)
            &&& properties.dom().contains("phys"@) ==> read.phys == cells_of(properties["phys"@])
            &&& !properties.dom().contains("phys"@) ==> read.phys.len() == 0
        }),
{
}

/// A node of the device tree is probed by what the driver reads in it, if it is a
/// PCI bridge; another is passed over.
pub proof fn lemma_probed_node(node: fdt_edit::NodeType<'_>, devices: usize)
    ensures
        node_is_pci(node) ==> node_script(node, devices as int) == probe_script(
            node_view(node, node_regs(node)),
            devices as int,
        ),
        !node_is_pci(node) ==> node_script(node, devices as int) == Err::<Seq<Instr>, ProbeError>(
            ProbeError::NotMatch,
        ),
{
}

} // verus!
