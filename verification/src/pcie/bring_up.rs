//! Laws of bringing a host up, where every action succeeds: what has been done
//! when, and what has come of it.
use super::clock::{clock_script, clocks_script, lemma_clocks_script_guarded};
use super::effects::{
    is_bit_of, is_held, is_phy_access, is_reset, is_reset_action, lemma_no_phy,
    lemma_phy_keeps_held, lemma_phy_prepared, lemma_phy_unmentioned, lemma_resets_only,
    lemma_resets_written, lemma_supply_on, names_phy, phy_number, reset_line_bit, reset_register,
};
use super::phy::{lemma_phy_script_guarded, phy_script};
use super::power::{
    lemma_power_domain_guarded, lemma_supply_guarded, power_domain_script, supply_script,
};
use super::probe::{bring_up_script, PcieNodeView};
use super::reset::{lemma_resets_script_guarded, resets_script};
use crate::fdt::ClockView;
use crate::guard::lemma_closed_concat;
use crate::hiword::bit_of;
use crate::model::{
    after_actions, is_aloof, lemma_after_aloof, lemma_after_concat, lemma_performed_concat,
    lemma_performed_straight, performed, Machine,
};
use crate::script::Action;
use vstd::prelude::*;

verus! {

/// Whether an action has to do with a clock.
pub open spec fn is_clock_action(action: Action) -> bool {
    action is AcquireClock || action is SetRate || action is PeripheralEnable
}

/// What bringing a host up performs, part by part: power, supply, resets held,
/// clocks, PHY, resets released.
pub proof fn lemma_bring_up_parts(node: PcieNodeView, apb_base: u64, devices: usize)
    ensures
        performed(bring_up_script(node, apb_base, devices as int), 0) == performed(
            power_domain_script(devices as int),
            0,
        ) + performed(supply_script(node.supply), 0) + performed(
            resets_script(node.resets, true),
            0,
        ) + performed(clocks_script(apb_base, node.clocks), 0) + performed(
            phy_script(node.phys),
            0,
        ) + performed(resets_script(node.resets, false), 0),
{
    let power = power_domain_script(devices as int);
    let supply = supply_script(node.supply);
    let hold = resets_script(node.resets, true);
    let clocks = clocks_script(apb_base, node.clocks);
    let phy = phy_script(node.phys);
    let release = resets_script(node.resets, false);
    lemma_power_domain_guarded(devices);
    lemma_supply_guarded(node.supply);
    lemma_resets_script_guarded(node.resets, true);
    lemma_clocks_script_guarded(apb_base, node.clocks);
    lemma_phy_script_guarded(node.phys);
    lemma_closed_concat(power, supply);
    lemma_closed_concat(power + supply, hold);
    lemma_closed_concat(power + supply + hold, clocks);
    lemma_closed_concat(power + supply + hold + clocks, phy);
    lemma_performed_concat(power, supply, 0);
    lemma_performed_concat(power + supply, hold, 0);
    lemma_performed_concat(power + supply + hold, clocks, 0);
    lemma_performed_concat(power + supply + hold + clocks, phy, 0);
    lemma_performed_concat(power + supply + hold + clocks + phy, release, 0);
}

/// Where the first power manager obeys, no other is asked.
pub proof fn lemma_one_power_manager(devices: usize)
    ensures
        devices > 0 ==> performed(power_domain_script(devices as int), 0) == seq![
            Action::PowerOn { device: 0, domain: 34 },
        ],
        devices == 0 ==> performed(power_domain_script(devices as int), 0).len() == 0,
{
    let script = power_domain_script(devices as int);
    if devices > 0 {
        assert(performed(script, script.len() as int) =~= seq![]);
        assert(performed(script, 0) =~= seq![Action::PowerOn { device: 0, domain: 34 }]);
    }
}

/// Enabling the clocks of a host does nothing but that.
pub proof fn lemma_clocks_only(apb_base: u64, clocks: Seq<ClockView>, i: int)
    ensures
        0 <= i < performed(clocks_script(apb_base, clocks), 0).len() ==> is_clock_action(
            performed(clocks_script(apb_base, clocks), 0)[i],
        ),
    decreases clocks.len(),
{
    if clocks.len() > 0 {
        let rest = clocks_script(apb_base, clocks.drop_last());
        let last = clock_script(apb_base, clocks.last());
        lemma_clocks_only(apb_base, clocks.drop_last(), i);
        lemma_clocks_script_guarded(apb_base, clocks.drop_last());
        lemma_performed_concat(rest, last, 0);
        lemma_performed_straight(last, 0);
        if performed(rest, 0).len() <= i < performed(clocks_script(apb_base, clocks), 0).len() {
            let k = i - performed(rest, 0).len();
            assert(performed(clocks_script(apb_base, clocks), 0)[i] == performed(last, 0)[k]);
            assert(performed(last, 0)[k] == last[k].action);
        }
    }
}

proof fn lemma_power_and_clocks_aloof(machine: Machine, apb_base: u64, clocks: Seq<ClockView>, devices: usize)
    ensures
        after_actions(machine, performed(power_domain_script(devices as int), 0)) == machine,
        after_actions(machine, performed(clocks_script(apb_base, clocks), 0)) == machine,
{
    lemma_one_power_manager(devices);
    lemma_after_aloof(machine, performed(power_domain_script(devices as int), 0));
    let actions = performed(clocks_script(apb_base, clocks), 0);
    assert forall|i: int| 0 <= i < actions.len() implies is_aloof(#[trigger] actions[i]) by {
        lemma_clocks_only(apb_base, clocks, i);
    }
    lemma_after_aloof(machine, actions);
}

/// Whether `address` lies in the registers of the clock and reset units that
/// hold the resets.
pub open spec fn in_reset_unit(address: int) -> bool {
    0xfd7c_0a00 <= address < 0xfd7c_0a00 + 0x4000 || address == 0xfd7c_8a00
}

/// Whether a bit belongs to one of the resets of the PHY that `phys` names.
pub open spec fn is_phy_reset_bit(phys: Seq<u32>, address: int, bit: u32) -> bool {
    names_phy(phys) && is_bit_of(
        seq![
            (0x2_0005 + phy_number(phys[0])) as u32,
            (0x4d6 + phy_number(phys[0])) as u32,
        ],
        address,
        bit,
    )
}

/// Once a host is up, all resets of its node are released, and no other reset
/// has changed, but that those of its PHY are released too.
pub proof fn lemma_resets_after_bring_up(
    machine: Machine,
    node: PcieNodeView,
    apb_base: u64,
    devices: usize,
    address: int,
    bit: u32,
)
    requires
        bit < 32,
    ensures
        ({
            let after = after_actions(
                machine,
                performed(bring_up_script(node, apb_base, devices as int), 0),
            );
            &&& is_bit_of(node.resets, address, bit) ==> !bit_of((after.registers)(address), bit)
            &&& is_phy_reset_bit(node.phys, address, bit) ==> !bit_of(
                (after.registers)(address),
                bit,
            )
            &&& in_reset_unit(address) && !is_bit_of(node.resets, address, bit)
                && !is_phy_reset_bit(node.phys, address, bit) ==> bit_of(
                (after.registers)(address),
                bit,
            ) == bit_of((machine.registers)(address), bit)
        }),
{
    let states = bring_up_states(machine, node, apb_base, devices);
    lemma_bring_up_states(machine, node, apb_base, devices);
    lemma_supply_on(machine, node.supply);
    lemma_resets_written(states.0, node.resets, true, address, bit);
    lemma_phy_bits(states.1, node.phys, address, bit);
    lemma_resets_written(states.2, node.resets, false, address, bit);
    if in_reset_unit(address) {
        lemma_supply_elsewhere(machine, node.supply, address, bit);
    }
}

/// The machine with the supply on, with the resets held, with the PHY prepared,
/// and at the end.
spec fn bring_up_states(
    machine: Machine,
    node: PcieNodeView,
    apb_base: u64,
    devices: usize,
) -> (Machine, Machine, Machine, Machine) {
    let supplied = after_actions(machine, performed(supply_script(node.supply), 0));
    let held = after_actions(supplied, performed(resets_script(node.resets, true), 0));
    let prepared = after_actions(held, performed(phy_script(node.phys), 0));
    let released = after_actions(prepared, performed(resets_script(node.resets, false), 0));
    (supplied, held, prepared, released)
}

proof fn lemma_bring_up_states(
    machine: Machine,
    node: PcieNodeView,
    apb_base: u64,
    devices: usize,
)
    ensures
        after_actions(machine, performed(bring_up_script(node, apb_base, devices as int), 0))
            == bring_up_states(machine, node, apb_base, devices).3,
{
    let power = performed(power_domain_script(devices as int), 0);
    let supply = performed(supply_script(node.supply), 0);
    let hold = performed(resets_script(node.resets, true), 0);
    let clocks = performed(clocks_script(apb_base, node.clocks), 0);
    let phy = performed(phy_script(node.phys), 0);
    let release = performed(resets_script(node.resets, false), 0);
    lemma_bring_up_parts(node, apb_base, devices);
    lemma_after_concat(machine, power, supply);
    lemma_after_concat(machine, power + supply, hold);
    lemma_after_concat(machine, power + supply + hold, clocks);
    lemma_after_concat(machine, power + supply + hold + clocks, phy);
    lemma_after_concat(machine, power + supply + hold + clocks + phy, release);
    let states = bring_up_states(machine, node, apb_base, devices);
    lemma_power_and_clocks_aloof(machine, apb_base, node.clocks, devices);
    lemma_power_and_clocks_aloof(states.1, apb_base, node.clocks, devices);
}

proof fn lemma_supply_elsewhere(machine: Machine, supply: Option<u32>, address: int, bit: u32)
    requires
        bit < 32,
        in_reset_unit(address),
    ensures
        bit_of(
            (after_actions(machine, performed(supply_script(supply), 0)).registers)(address),
            bit,
        ) == bit_of((machine.registers)(address), bit),
{
    lemma_supply_on(machine, supply);
    let after = after_actions(machine, performed(supply_script(supply), 0));
    if performed(supply_script(supply), 0).len() == 0 {
        assert(after == machine);
    } else {
        assert(bit_of((after.registers)(address), bit) == bit_of(
            (machine.registers)(address),
            bit,
        ));
    }
}

/// What a PHY's preparation does to a bit outside the registers of the PHY.
proof fn lemma_phy_bits(machine: Machine, phys: Seq<u32>, address: int, bit: u32)
    requires
        bit < 32,
    ensures
        ({
            let after = after_actions(machine, performed(phy_script(phys), 0));
            &&& is_phy_reset_bit(phys, address, bit) ==> !bit_of((after.registers)(address), bit)
            &&& !is_phy_reset_bit(phys, address, bit) && outside_phys(address) ==> bit_of(
                (after.registers)(address),
                bit,
            ) == bit_of((machine.registers)(address), bit)
        }),
{
    if names_phy(phys) {
        lemma_phy_prepared(machine, phys, address, bit);
    } else {
        lemma_no_phy(phys);
        assert(performed(phy_script(phys), 0) =~= seq![]);
    }
}

/// Whether `address` lies outside the registers of the PHYs.
pub open spec fn outside_phys(address: int) -> bool {
    !(0xfd5b_0000 <= address < 0xfd5d_0000) && !(0xfee0_0000 <= address < 0xfee3_0000)
}

proof fn lemma_supply_actions(supply: Option<u32>, i: int)
    ensures
        0 <= i < performed(supply_script(supply), 0).len() ==> !is_clock_action(
            performed(supply_script(supply), 0)[i],
        ) && !is_phy_access(performed(supply_script(supply), 0)[i]) && !is_reset_action(
            performed(supply_script(supply), 0)[i],
        ),
{
    lemma_performed_straight(supply_script(supply), 0);
}

/// While the clocks are enabled and the PHY is set up, all resets of the node
/// are held.
pub proof fn lemma_held_during_set_up(
    machine: Machine,
    node: PcieNodeView,
    apb_base: u64,
    devices: usize,
    i: int,
    reset_id: u32,
)
    requires
        is_reset(reset_id),
        node.resets.contains(reset_id),
        0 <= i < performed(bring_up_script(node, apb_base, devices as int), 0).len(),
        is_clock_action(performed(bring_up_script(node, apb_base, devices as int), 0)[i])
            || is_phy_access(performed(bring_up_script(node, apb_base, devices as int), 0)[i]),
    ensures
        is_held(
            after_actions(
                machine,
                performed(bring_up_script(node, apb_base, devices as int), 0).take(i),
            ).registers,
            reset_id,
        ),
{
    let power = performed(power_domain_script(devices as int), 0);
    let supply = performed(supply_script(node.supply), 0);
    let hold = performed(resets_script(node.resets, true), 0);
    let clocks = performed(clocks_script(apb_base, node.clocks), 0);
    let phy = performed(phy_script(node.phys), 0);
    let release = performed(resets_script(node.resets, false), 0);
    let all = performed(bring_up_script(node, apb_base, devices as int), 0);
    lemma_bring_up_parts(node, apb_base, devices);
    lemma_one_power_manager(devices);
    let start = power + supply + hold;
    let s = start.len() as int;
    let c = clocks.len() as int;
    let p = phy.len() as int;
    assert(all =~= start + clocks + phy + release);
    if i < power.len() {
        assert(all[i] == power[i]);
    } else if i < power.len() + supply.len() {
        assert(all[i] == supply[i - power.len()]);
        lemma_supply_actions(node.supply, i - power.len());
    } else if i < s {
        assert(all[i] == hold[i - power.len() - supply.len()]);
        lemma_resets_only(node.resets, true, i - power.len() - supply.len());
    } else {
        let supplied = after_actions(machine, supply);
        let held = after_actions(supplied, hold);
        lemma_after_concat(machine, power, supply);
        lemma_after_concat(machine, power + supply, hold);
        lemma_power_and_clocks_aloof(machine, apb_base, node.clocks, devices);
        let at = node.resets.index_of(reset_id);
        assert(node.resets[at] == reset_id);
        assert(is_bit_of(node.resets, reset_register(reset_id), reset_line_bit(reset_id)));
        lemma_resets_written(
            supplied,
            node.resets,
            true,
            reset_register(reset_id),
            reset_line_bit(reset_id),
        );
        if i < s + c {
            assert(all.take(i) =~= start + clocks.take(i - s));
            lemma_after_concat(machine, start, clocks.take(i - s));
            assert forall|k: int| 0 <= k < clocks.take(i - s).len() implies is_aloof(
                #[trigger] clocks.take(i - s)[k],
            ) by {
                lemma_clocks_only(apb_base, node.clocks, k);
            }
            lemma_after_aloof(held, clocks.take(i - s));
        } else if i < s + c + p {
            assert(all.take(i) =~= start + clocks + phy.take(i - s - c));
            lemma_after_concat(machine, start + clocks, phy.take(i - s - c));
            lemma_after_concat(machine, start, clocks);
            lemma_power_and_clocks_aloof(held, apb_base, node.clocks, devices);
            assert(all[i] == phy[i - s - c]);
            lemma_phy_unmentioned(node.phys, i - s - c);
            lemma_phy_keeps_held(held, node.phys, i - s - c, reset_id);
        } else {
            assert(all[i] == release[i - s - c - p]);
            lemma_resets_only(node.resets, false, i - s - c - p);
        }
    }
}

/// The supply is on, once a host is up, whatever has been done since it was
/// switched on.
pub proof fn lemma_supply_stays_on(
    machine: Machine,
    node: PcieNodeView,
    apb_base: u64,
    devices: usize,
)
    ensures
        ({
            let after = after_actions(
                machine,
                performed(bring_up_script(node, apb_base, devices as int), 0),
            );
            &&& node.supply == Some(0x1c2u32) ==> bit_of((after.registers)(0xfd8a_0000), 14)
                && bit_of((after.registers)(0xfd8a_0008), 14)
            &&& node.supply == Some(0x1c6u32) ==> bit_of((after.registers)(0xfd8a_0004), 5)
                && bit_of((after.registers)(0xfd8a_000c), 5)
            &&& node.supply == Some(0x4a4u32) ==> !bit_of((after.registers)(0xfec5_0004), 4)
                && bit_of((after.registers)(0xfec5_000c), 4)
        }),
{
    let states = bring_up_states(machine, node, apb_base, devices);
    lemma_bring_up_states(machine, node, apb_base, devices);
    lemma_supply_on(machine, node.supply);
    lemma_gpio_kept(states.0, node, 0xfd8a_0000, 14);
    lemma_gpio_kept(states.0, node, 0xfd8a_0008, 14);
    lemma_gpio_kept(states.0, node, 0xfd8a_0004, 5);
    lemma_gpio_kept(states.0, node, 0xfd8a_000c, 5);
    lemma_gpio_kept(states.0, node, 0xfec5_0004, 4);
    lemma_gpio_kept(states.0, node, 0xfec5_000c, 4);
}

/// Resets and PHY leave every register outside their own alone.
proof fn lemma_gpio_kept(machine: Machine, node: PcieNodeView, address: int, bit: u32)
    requires
        bit < 32,
        outside_phys(address),
        !in_reset_unit(address),
    ensures
        ({
            let held = after_actions(machine, performed(resets_script(node.resets, true), 0));
            let prepared = after_actions(held, performed(phy_script(node.phys), 0));
            let released = after_actions(
                prepared,
                performed(resets_script(node.resets, false), 0),
            );
            bit_of((released.registers)(address), bit) == bit_of((machine.registers)(address), bit)
        }),
{
    let held = after_actions(machine, performed(resets_script(node.resets, true), 0));
    let prepared = after_actions(held, performed(phy_script(node.phys), 0));
    lemma_resets_written(machine, node.resets, true, address, bit);
    lemma_phy_bits(held, node.phys, address, bit);
    lemma_resets_written(prepared, node.resets, false, address, bit);
}

/// Nothing of a host is touched before its power domain is on and its supply has
/// been switched on: the power manager is asked first.
pub proof fn lemma_power_first(node: PcieNodeView, apb_base: u64, devices: usize, i: int)
    requires
        0 <= i < performed(bring_up_script(node, apb_base, devices as int), 0).len(),
    ensures
        ({
            let actions = performed(bring_up_script(node, apb_base, devices as int), 0);
            &&& devices > 0 ==> actions[0] == (Action::PowerOn { device: 0, domain: 34 })
            &&& actions[i] is PowerOn ==> i == 0
        }),
{
    lemma_which_part(node, apb_base, devices, i);
    lemma_one_power_manager(devices);
}

/// Where the action `i` of bringing a host up comes from.
proof fn lemma_which_part(node: PcieNodeView, apb_base: u64, devices: usize, i: int)
    requires
        0 <= i < performed(bring_up_script(node, apb_base, devices as int), 0).len(),
    ensures
        ({
            let all = performed(bring_up_script(node, apb_base, devices as int), 0);
            let p = performed(power_domain_script(devices as int), 0).len() as int;
            let s = p + performed(supply_script(node.supply), 0).len();
            let h = s + performed(resets_script(node.resets, true), 0).len();
            let c = h + performed(clocks_script(apb_base, node.clocks), 0).len();
            let f = c + performed(phy_script(node.phys), 0).len();
            &&& p == if devices > 0 {
                1int
            } else {
                0
            }
            &&& p > 0 ==> all[0] == performed(power_domain_script(devices as int), 0)[0]
            &&& i < p ==> all[i] is PowerOn
            &&& p <= i < s ==> !(all[i] is PowerOn) && !is_clock_action(all[i]) && !is_phy_access(
                all[i],
            ) && !is_reset_action(all[i])
            &&& s <= i < h ==> is_reset_action(all[i])
            &&& h <= i < c ==> is_clock_action(all[i])
            &&& c <= i < f ==> !(all[i] is PowerOn) && !(all[i] is PeripheralEnable)
            &&& f <= i ==> is_reset_action(all[i])
        }),
{
    let power = performed(power_domain_script(devices as int), 0);
    let supply = performed(supply_script(node.supply), 0);
    let hold = performed(resets_script(node.resets, true), 0);
    let clocks = performed(clocks_script(apb_base, node.clocks), 0);
    let phy = performed(phy_script(node.phys), 0);
    let release = performed(resets_script(node.resets, false), 0);
    let all = performed(bring_up_script(node, apb_base, devices as int), 0);
    lemma_bring_up_parts(node, apb_base, devices);
    lemma_one_power_manager(devices);
    assert(all == power + supply + hold + clocks + phy + release);
    let p = power.len() as int;
    let s = p + supply.len();
    let h = s + hold.len();
    let c = h + clocks.len();
    let f = c + phy.len();
    if p <= i < s {
        assert(all[i] == supply[i - p]);
        lemma_supply_actions(node.supply, i - p);
        lemma_performed_straight(supply_script(node.supply), 0);
    } else if s <= i < h {
        assert(all[i] == hold[i - s]);
        lemma_resets_only(node.resets, true, i - s);
    } else if h <= i < c {
        assert(all[i] == clocks[i - h]);
        lemma_clocks_only(apb_base, node.clocks, i - h);
    } else if c <= i < f {
        assert(all[i] == phy[i - c]);
        lemma_phy_unmentioned(node.phys, i - c);
    } else if f <= i {
        assert(all[i] == release[i - f]);
        lemma_resets_only(node.resets, false, i - f);
    }
}

/// The clocks of a host are enabled before its PHY is set up.
pub proof fn lemma_clocks_before_phy(
    node: PcieNodeView,
    apb_base: u64,
    devices: usize,
    i: int,
    j: int,
)
    requires
        0 <= i < performed(bring_up_script(node, apb_base, devices as int), 0).len(),
        0 <= j < performed(bring_up_script(node, apb_base, devices as int), 0).len(),
        performed(bring_up_script(node, apb_base, devices as int), 0)[i] is PeripheralEnable,
        is_phy_access(performed(bring_up_script(node, apb_base, devices as int), 0)[j]),
    ensures
        i < j,
{
    lemma_which_part(node, apb_base, devices, i);
    lemma_which_part(node, apb_base, devices, j);
}

/// The supply has been switched on, and nothing but that done, before any action
/// that has to do with a reset, a clock or the PHY.
pub proof fn lemma_supplied_first(node: PcieNodeView, apb_base: u64, devices: usize, i: int)
    requires
        0 <= i < performed(bring_up_script(node, apb_base, devices as int), 0).len(),
        ({
            let action = performed(bring_up_script(node, apb_base, devices as int), 0)[i];
            is_reset_action(action) || is_clock_action(action) || is_phy_access(action)
        }),
    ensures
        ({
            let all = performed(bring_up_script(node, apb_base, devices as int), 0);
            let supply = performed(supply_script(node.supply), 0);
            let p = if devices > 0 {
                1int
            } else {
                0
            };
            p + supply.len() <= i && all.subrange(p, p + supply.len()) == supply
        }),
{
    lemma_which_part(node, apb_base, devices, i);
    lemma_bring_up_parts(node, apb_base, devices);
    let power = performed(power_domain_script(devices as int), 0);
    let supply = performed(supply_script(node.supply), 0);
    let all = performed(bring_up_script(node, apb_base, devices as int), 0);
    let p = power.len() as int;
    assert(all.subrange(p, p + supply.len()) =~= supply);
}

} // verus!
