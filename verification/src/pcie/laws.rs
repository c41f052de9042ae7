//! Laws of the script that brings a host up.
use super::clock::{clock_script, clocks_script, cru_clock_script, lemma_clocks_script_guarded};
use super::host::{bar_script, outbound_script};
use super::phy::{
    combphy_accesses, combphy_clocks, combphy_script, cru_clocks_script, lemma_phy_script_guarded,
    phy_script, wanted_phy,
};
use super::power::{
    lemma_power_domain_guarded, lemma_supply_guarded, power_domain_script, supply_script,
};
use super::probe::{
    announce_script, bring_up_script, perst_script, probe_script, reset_line, start_script,
    PcieNodeView,
};
use super::reset::{
    lemma_reset_in_window, lemma_resets_script_guarded, reset_script, resets_script,
};
use crate::fdt::ClockView;
use crate::guard::{
    closed, guarded, lemma_closed_concat, lemma_guarded_concat, lemma_guarded_if_unneeding,
    lemma_reaches_across, lemma_reaches_second, lemma_straight_reaches, needs, provided_at, shifted,
    straight, Resource,
};
use crate::script::{reaches, Action, Instr, OnFailure, Slot};
use vstd::prelude::*;

verus! {

/// What has to run before the registers of the host answer uses only what it
/// has got hold of.
pub proof fn lemma_bring_up_guarded(node: PcieNodeView, apb_base: u64, devices: usize)
    ensures
        closed(bring_up_script(node, apb_base, devices as int)),
        guarded(bring_up_script(node, apb_base, devices as int)),
{
    let power = power_domain_script(devices as int);
    let supply = supply_script(node.supply);
    let hold = resets_script(node.resets, true);
    let clocks = clocks_script(apb_base, node.clocks);
    let phy = phy_script(node.phys);
    let release = resets_script(node.resets, false);
    lemma_power_domain_guarded(devices);
    lemma_supply_guarded(node.supply);
    lemma_resets_script_guarded(node.resets, true);
    lemma_clocks_script_guarded(apb_base, node.clocks);
    lemma_phy_script_guarded(node.phys);
    lemma_resets_script_guarded(node.resets, false);
    lemma_closed_concat(power, supply);
    lemma_guarded_concat(power, supply);
    lemma_closed_concat(power + supply, hold);
    lemma_guarded_concat(power + supply, hold);
    lemma_closed_concat(power + supply + hold, clocks);
    lemma_guarded_concat(power + supply + hold, clocks);
    lemma_closed_concat(power + supply + hold + clocks, phy);
    lemma_guarded_concat(power + supply + hold + clocks, phy);
    lemma_closed_concat(power + supply + hold + clocks + phy, release);
    lemma_guarded_concat(power + supply + hold + clocks + phy, release);
}

/// The host is started only with its windows mapped, and used only when it has
/// been started.
pub proof fn lemma_host_guarded(node: PcieNodeView, cfg: (u64, u64))
    ensures
        closed(
            start_script(node, cfg, reset_line(node.reset_gpios, node.regs[0].address))
                + announce_script(node, cfg),
        ),
        guarded(
            start_script(node, cfg, reset_line(node.reset_gpios, node.regs[0].address))
                + announce_script(node, cfg),
        ),
        straight(
            start_script(node, cfg, reset_line(node.reset_gpios, node.regs[0].address))
                + announce_script(node, cfg),
        ),
{
    let start = start_script(node, cfg, reset_line(node.reset_gpios, node.regs[0].address));
    let announce = announce_script(node, cfg);
    let script = start + announce;
    lemma_announce_actions(node, cfg);
    assert forall|i: int| #![trigger script[i]] 0 <= i < script.len() implies script[i].on_success
        == 0 && (script[i].on_failure == OnFailure::Continue || script[i].on_failure
        == OnFailure::Abort) by {
        if i >= 4 {
            assert(script[i] == announce[i - 4]);
        }
    }
    assert forall|ok: spec_fn(int) -> bool, i: int, resource: Resource, bytes: int|
        0 <= i < script.len() && #[trigger] reaches(script, ok, 0, i) && #[trigger] needs(
            script[i].action,
            resource,
            bytes,
        ) implies exists|j: int| provided_at(script, ok, i, resource, bytes, j) by {
        lemma_straight_reaches(script, ok, 0, i);
        lemma_straight_reaches(script, ok, 0, 0);
        assert(i >= 3);
        assert(script[0].on_failure == OnFailure::Abort);
        assert(script[1].on_failure == OnFailure::Abort);
        assert(script[2].on_failure == OnFailure::Abort);
        assert(script[3].on_failure == OnFailure::Abort);
        lemma_straight_reaches(script, ok, 0, 1);
        lemma_straight_reaches(script, ok, 0, 2);
        lemma_straight_reaches(script, ok, 0, 3);
        if i == 3 {
            if resource == Resource::Window(Slot::Apb) {
                assert(provided_at(script, ok, i, resource, bytes, 0));
            } else if resource == Resource::Window(Slot::Dbi) {
                assert(provided_at(script, ok, i, resource, bytes, 1));
            } else {
                assert(provided_at(script, ok, i, resource, bytes, 2));
            }
        } else {
            assert(script[i] == announce[i - 4]);
            assert forall|k: int| 3 < k < i implies (#[trigger] script[k]) == announce[k - 4] by {}
            assert(provided_at(script, ok, i, resource, bytes, 3));
        }
    }
}

/// Whether an action may follow the start of the host.
spec fn follows_start(action: Action) -> bool {
    match action {
        Action::ProgramWindow { .. } => true,
        Action::UnmaskLegacyIntx => true,
        Action::RegisterLegacyIrq { .. } => true,
        Action::SetBarRange { .. } => true,
        Action::RegisterController => true,
        _ => false,
    }
}

proof fn lemma_announce_actions(node: PcieNodeView, cfg: (u64, u64))
    ensures
        forall|i: int| #![trigger announce_script(node, cfg)[i]]
            0 <= i < announce_script(node, cfg).len() ==> follows_start(
                announce_script(node, cfg)[i].action,
            ) && announce_script(node, cfg)[i].on_success == 0 && announce_script(
                node,
                cfg,
            )[i].on_failure == OnFailure::Continue,
{
    let outbound = outbound_script(node.ranges, cfg.0, cfg.1);
    let bars = bar_script(node.ranges, cfg.0, cfg.1);
    let script = announce_script(node, cfg);
    assert forall|i: int| #![trigger script[i]] 0 <= i < script.len() implies follows_start(
        script[i].action,
    ) && script[i].on_success == 0 && script[i].on_failure == OnFailure::Continue by {
        let n = outbound.len() as int;
        let m = bars.len() as int;
        if i < n {
            assert(script[i] == outbound[i]);
        } else if i < n + 2 {
        } else if i < n + 2 + m {
            assert(script[i] == bars[i - n - 2]);
        }
    }
}

/// However its actions go, the script that brings a host up touches no
/// register whose window it has not mapped (nor one outside the window), sets
/// no clock whose device it has not acquired, and uses no host that it has not
/// started.
pub proof fn lemma_probe_guarded(node: PcieNodeView, devices: usize)
    ensures
        probe_script(node, devices as int) matches Ok(script) ==> closed(script) && guarded(script),
{
    if let Ok(script) = probe_script(node, devices as int) {
        let cfg = super::host::config_window_of(node.regs, node.ranges)->0;
        let apb_base = node.regs[0].address;
        let reset = reset_line(node.reset_gpios, apb_base);
        let perst = perst_script(reset);
        let bring_up = bring_up_script(node, apb_base, devices as int);
        let start = start_script(node, cfg, reset);
        let announce = announce_script(node, cfg);
        lemma_guarded_if_unneeding(perst);
        lemma_bring_up_guarded(node, apb_base, devices);
        lemma_host_guarded(node, cfg);
        lemma_closed_concat(perst, bring_up);
        lemma_guarded_concat(perst, bring_up);
        lemma_closed_concat(perst + bring_up, start + announce);
        lemma_guarded_concat(perst + bring_up, start + announce);
        assert(script =~= perst + bring_up + (start + announce));
    }
}

/// A controller is announced only after its host has been started.
pub proof fn lemma_announced_after_start(
    node: PcieNodeView,
    devices: usize,
    ok: spec_fn(int) -> bool,
    i: int,
)
    requires
        probe_script(node, devices as int) is Ok,
        0 <= i < probe_script(node, devices as int)->Ok_0.len(),
        probe_script(node, devices as int)->Ok_0[i].action == Action::RegisterController,
        reaches(probe_script(node, devices as int)->Ok_0, ok, 0, i),
    ensures
        exists|j: int|
            0 <= j < i && ok(j) && reaches(probe_script(node, devices as int)->Ok_0, ok, 0, j)
                && (#[trigger] probe_script(
                node,
                devices as int,
            )->Ok_0[j]).action is StartHost,
{
    lemma_probe_guarded(node, devices);
    let script = probe_script(node, devices as int)->Ok_0;
    assert(needs(script[i].action, Resource::Host, 0));
    let j = choose|j: int| provided_at(script, ok, i, Resource::Host, 0, j);
    assert(script[j].action is StartHost);
}

/// No reset of the host is released unless the PHY has been prepared: where a
/// window of the PHY cannot be mapped, the resets stay asserted.
pub proof fn lemma_release_after_phy(
    node: PcieNodeView,
    apb_base: u64,
    devices: usize,
    ok: spec_fn(int) -> bool,
    i: int,
)
    requires
        bring_up_script(node, apb_base, devices as int).len() - resets_script(
            node.resets,
            false,
        ).len() <= i,
        reaches(bring_up_script(node, apb_base, devices as int), ok, 0, i),
    ensures
        ({
            let before = power_domain_script(devices as int) + supply_script(node.supply)
                + resets_script(node.resets, true) + clocks_script(apb_base, node.clocks);
            reaches(
                phy_script(node.phys),
                shifted(ok, before.len() as int),
                0,
                phy_script(node.phys).len() as int,
            )
        }),
{
    let power = power_domain_script(devices as int);
    let supply = supply_script(node.supply);
    let hold = resets_script(node.resets, true);
    let clocks = clocks_script(apb_base, node.clocks);
    let phy = phy_script(node.phys);
    let release = resets_script(node.resets, false);
    let before = power + supply + hold + clocks;
    lemma_power_domain_guarded(devices);
    lemma_supply_guarded(node.supply);
    lemma_resets_script_guarded(node.resets, true);
    lemma_clocks_script_guarded(apb_base, node.clocks);
    lemma_phy_script_guarded(node.phys);
    lemma_closed_concat(power, supply);
    lemma_closed_concat(power + supply, hold);
    lemma_closed_concat(power + supply + hold, clocks);
    lemma_closed_concat(before, phy);
    lemma_reaches_across(before + phy, release, ok, 0, i);
    lemma_reaches_across(before, phy, ok, 0, (before + phy).len() as int);
    lemma_reaches_second(before, phy, ok, 0, phy.len() as int);
}

/// Whether an action accesses registers at their boundaries only.
pub open spec fn is_aligned(action: Action) -> bool {
    match action {
        Action::Write { offset, .. } => offset % 4 == 0,
        Action::Update { offset, .. } => offset % 4 == 0,
        _ => true,
    }
}

/// Whether all accesses of a script are to registers' boundaries.
pub open spec fn aligned(script: Seq<Instr>) -> bool {
    forall|i: int| 0 <= i < script.len() ==> is_aligned((#[trigger] script[i]).action)
}

proof fn lemma_aligned_concat(a: Seq<Instr>, b: Seq<Instr>)
    requires
        aligned(a),
        aligned(b),
    ensures
        aligned(a + b),
{
}

proof fn lemma_resets_aligned(reset_ids: Seq<u32>, asserted: bool)
    ensures
        aligned(resets_script(reset_ids, asserted)),
    decreases reset_ids.len(),
{
    if reset_ids.len() > 0 {
        lemma_resets_aligned(reset_ids.drop_last(), asserted);
        lemma_reset_in_window(reset_ids.last(), asserted);
        lemma_aligned_concat(
            resets_script(reset_ids.drop_last(), asserted),
            reset_script(reset_ids.last(), asserted),
        );
    }
}

proof fn lemma_clocks_aligned(apb_base: u64, clocks: Seq<ClockView>)
    ensures
        aligned(clocks_script(apb_base, clocks)),
    decreases clocks.len(),
{
    if clocks.len() > 0 {
        lemma_clocks_aligned(apb_base, clocks.drop_last());
        lemma_aligned_concat(
            clocks_script(apb_base, clocks.drop_last()),
            clock_script(apb_base, clocks.last()),
        );
    }
}

proof fn lemma_cru_clocks_aligned(clock_ids: Seq<usize>)
    ensures
        aligned(cru_clocks_script(clock_ids)),
    decreases clock_ids.len(),
{
    if clock_ids.len() > 0 {
        lemma_cru_clocks_aligned(clock_ids.drop_last());
        lemma_aligned_concat(
            cru_clocks_script(clock_ids.drop_last()),
            cru_clock_script(clock_ids.last()),
        );
    }
}

proof fn lemma_phy_aligned(phys: Seq<u32>)
    ensures
        aligned(phy_script(phys)),
{
    if let Some(phy) = wanted_phy(phys) {
        lemma_cru_clocks_aligned(combphy_clocks(phy.id));
        lemma_reset_in_window(phy.apb_reset, true);
        lemma_reset_in_window(phy.phy_reset, true);
        lemma_reset_in_window(phy.apb_reset, false);
        lemma_reset_in_window(phy.phy_reset, false);
        let config = combphy_script(phy);
        assert(aligned(config)) by {
            assert forall|i: int| 0 <= i < config.len() implies is_aligned(
                (#[trigger] config[i]).action,
            ) by {
                if i >= 3 {
                    assert(config[i].action == combphy_accesses(phy.id)[i - 3]);
                }
            }
        }
    }
}

/// Every access of the script that brings a host up is to a register's
/// boundary.
pub proof fn lemma_probe_aligned(node: PcieNodeView, devices: usize)
    ensures
        probe_script(node, devices as int) matches Ok(script) ==> aligned(script),
{
    if let Ok(script) = probe_script(node, devices as int) {
        let cfg = super::host::config_window_of(node.regs, node.ranges)->0;
        let apb_base = node.regs[0].address;
        let reset = reset_line(node.reset_gpios, apb_base);
        lemma_resets_aligned(node.resets, true);
        lemma_resets_aligned(node.resets, false);
        lemma_clocks_aligned(apb_base, node.clocks);
        lemma_phy_aligned(node.phys);
        lemma_announce_actions(node, cfg);
        assert(aligned(announce_script(node, cfg)));
        assert(aligned(start_script(node, cfg, reset)));
        assert(aligned(perst_script(reset)));
        assert(aligned(power_domain_script(devices as int)));
        assert(aligned(supply_script(node.supply)));
        assert(aligned(bring_up_script(node, apb_base, devices as int)));
        lemma_aligned_concat(
            perst_script(reset),
            bring_up_script(node, apb_base, devices as int),
        );
    }
}

} // verus!
