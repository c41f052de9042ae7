//! Laws of what the scripts do to the hardware, where every action succeeds.
use super::clock::cru_clock_script;
use super::gpio::{drive_writes, pin_bit};
use super::phy::{
    combphy_accesses, combphy_clocks, combphy_script, cru_clocks_script, lemma_combphy_guarded,
    lemma_cru_clocks_guarded, phandle_combphy, phy_script, prepare_script, wanted_phy,
    Rk3588Combphy,
};
use super::power::{regulator_script, supply_script};
use super::reset::{
    lemma_reset_script_guarded, lemma_resets_script_guarded, reset_location, reset_script,
    reset_write, resets_script,
};
use crate::guard::lemma_closed_concat;
use crate::hiword::{bit_of, hiword_apply, hiword_bit, lemma_single_bit};
use crate::model::{
    after_actions, after_first, is_aloof, lemma_after_aloof, lemma_after_concat,
    lemma_after_first, lemma_performed_concat, lemma_performed_straight, performed, Machine,
};
use crate::script::{Action, Slot, Window};
use vstd::prelude::*;

verus! {

/// Where the register is that holds the level of a line, in the bank at `base`.
pub open spec fn level_register(base: int, pin: u8) -> int {
    if pin < 16 {
        base
    } else {
        base + 4
    }
}

/// Where the register is that says whether a line is an output, in the bank at
/// `base`.
pub open spec fn output_register(base: int, pin: u8) -> int {
    if pin < 16 {
        base + 8
    } else {
        base + 12
    }
}

/// The bit of a line in its registers.
pub open spec fn line_bit(pin: u8) -> u32 {
    (pin % 16) as u32
}

/// Where the registers of a GPIO bank are.
pub open spec fn bank_address(bank: u8) -> int {
    if bank == 0 {
        0xfd8a_0000
    } else if bank == 1 {
        0xfec2_0000
    } else if bank == 2 {
        0xfec3_0000
    } else if bank == 3 {
        0xfec4_0000
    } else {
        0xfec5_0000
    }
}

/// Whether, from `before` to `after`, one line of the bank at `base` has become
/// an output at that level, and no other bit of any register has changed.
pub open spec fn only_drives(
    before: spec_fn(int) -> u32,
    after: spec_fn(int) -> u32,
    base: int,
    pin: u8,
    level: bool,
) -> bool {
    &&& bit_of(after(level_register(base, pin)), line_bit(pin)) == level
    &&& bit_of(after(output_register(base, pin)), line_bit(pin))
    &&& forall|address: int, bit: u32|
        bit < 32 && !(bit == line_bit(pin) && (address == level_register(base, pin) || address
            == output_register(base, pin))) ==> #[trigger] bit_of(after(address), bit) == bit_of(
            before(address),
            bit,
        )
}

/// Switching a regulator on makes its line an output, high exactly if the
/// regulator is active high, and changes nothing else. At the end it waits: as
/// long as the regulator says in microseconds, or else ten milliseconds.
pub proof fn lemma_regulator_on(
    machine: Machine,
    bank: u8,
    pin: u8,
    active_high: bool,
    startup_us: u32,
)
    requires
        bank <= 4,
        pin < 32,
    ensures
        ({
            let actions = performed(regulator_script(bank, pin, active_high, startup_us), 0);
            let after = after_actions(machine, actions);
            &&& only_drives(
                machine.registers,
                after.registers,
                bank_address(bank),
                pin,
                active_high,
            )
            &&& actions.last() == if startup_us != 0 {
                Action::DelayUs(startup_us as u64)
            } else {
                Action::DelayMs(10)
            }
        }),
{
    let script = regulator_script(bank, pin, active_high, startup_us);
    lemma_performed_straight(script, 0);
    let actions = performed(script, 0);
    let base = bank_address(bank);
    let writes = drive_writes(pin, active_high);
    assert(actions =~= seq![
        Action::MapWindow { slot: Slot::Gpio, window: Window { base: base as u64, size: 0x110 } },
        Action::Write { slot: Slot::Gpio, offset: writes[0].offset, value: writes[0].value },
        Action::Write { slot: Slot::Gpio, offset: writes[1].offset, value: writes[1].value },
        script[3].action,
    ]);
    let first = actions.drop_last().drop_last().drop_last();
    let second = actions.drop_last().drop_last();
    let third = actions.drop_last();
    assert(first.drop_last() =~= seq![]);
    assert(first.last() == actions[0]);
    assert(second.last() == actions[1]);
    assert(third.last() == actions[2]);
    reveal_with_fuel(after_actions, 5);
    let after = after_actions(machine, actions);
    let level_at = level_register(base, pin);
    let output_at = output_register(base, pin);
    let level_word = hiword_bit(pin_bit(pin), active_high);
    let output_word = hiword_bit(pin_bit(pin), true);
    assert(after.registers =~= |address: int|
        if address == output_at {
            hiword_apply((machine.registers)(address), output_word)
        } else if address == level_at {
            hiword_apply((machine.registers)(address), level_word)
        } else {
            (machine.registers)(address)
        });
    lemma_single_bit((machine.registers)(level_at), pin_bit(pin), active_high);
    lemma_single_bit((machine.registers)(output_at), pin_bit(pin), true);
}

/// The supply of a slot is switched on at its regulator's line, in the
/// regulator's polarity: line 14 of bank 0 or line 21 of bank 0 goes high, line
/// 20 of bank 4 goes low. Nothing else changes, and with a regulator that is not
/// known nothing is done.
pub proof fn lemma_supply_on(machine: Machine, phandle: Option<u32>)
    ensures
        ({
            let actions = performed(supply_script(phandle), 0);
            let after = after_actions(machine, actions);
            &&& phandle == Some(0x1c2u32) ==> only_drives(
                machine.registers,
                after.registers,
                0xfd8a_0000,
                14,
                true,
            ) && actions.last() == Action::DelayUs(5_000)
            &&& phandle == Some(0x1c6u32) ==> only_drives(
                machine.registers,
                after.registers,
                0xfd8a_0000,
                21,
                true,
            ) && actions.last() == Action::DelayUs(50_000)
            &&& phandle == Some(0x4a4u32) ==> only_drives(
                machine.registers,
                after.registers,
                0xfec5_0000,
                20,
                false,
            ) && actions.last() == Action::DelayUs(50_000)
            &&& phandle != Some(0x1c2u32) && phandle != Some(0x1c6u32) && phandle != Some(0x4a4u32)
                ==> actions.len() == 0
        }),
{
    lemma_regulator_on(machine, 0, 14, true, 5_000);
    lemma_regulator_on(machine, 0, 21, true, 50_000);
    lemma_regulator_on(machine, 4, 20, false, 50_000);
}

/// Where the register of a reset is.
pub open spec fn reset_register(reset_id: u32) -> int {
    if reset_id < 0x1_0000 {
        0xfd7c_0a00 + reset_id / 16 * 4
    } else {
        0xfd7c_8a00
    }
}

/// The bit of a reset in its register.
pub open spec fn reset_line_bit(reset_id: u32) -> u32 {
    reset_id % 16
}

/// Whether there is a reset of that number.
pub open spec fn is_reset(reset_id: u32) -> bool {
    reset_id < 0x1_0000 || reset_id == 0x2_0005 || reset_id == 0x2_0006 || reset_id == 0x2_0007
}

/// Whether the machine holds a reset.
pub open spec fn is_held(registers: spec_fn(int) -> u32, reset_id: u32) -> bool {
    bit_of(registers(reset_register(reset_id)), reset_line_bit(reset_id))
}

/// Whether that bit of that register belongs to one of `reset_ids`.
pub open spec fn is_bit_of(reset_ids: Seq<u32>, address: int, bit: u32) -> bool {
    exists|i: int|
        0 <= i < reset_ids.len() && is_reset(#[trigger] reset_ids[i]) && address == reset_register(
            reset_ids[i],
        ) && bit == reset_line_bit(reset_ids[i])
}

/// Writing resets leaves each of them that there is held or released, as was
/// asked, and changes no other bit of any register.
pub proof fn lemma_resets_written(
    machine: Machine,
    reset_ids: Seq<u32>,
    asserted: bool,
    address: int,
    bit: u32,
)
    requires
        bit < 32,
    ensures
        bit_of(
            (after_actions(machine, performed(resets_script(reset_ids, asserted), 0)).registers)(
                address,
            ),
            bit,
        ) == if is_bit_of(reset_ids, address, bit) {
            asserted
        } else {
            bit_of((machine.registers)(address), bit)
        },
    decreases reset_ids.len(),
{
    if reset_ids.len() > 0 {
        let rest = reset_ids.drop_last();
        let last = reset_ids.last();
        lemma_resets_written(machine, rest, asserted, address, bit);
        lemma_resets_script_guarded(rest, asserted);
        lemma_performed_concat(resets_script(rest, asserted), reset_script(last, asserted), 0);
        let before = performed(resets_script(rest, asserted), 0);
        let more = performed(reset_script(last, asserted), 0);
        lemma_after_concat(machine, before, more);
        lemma_reset_written(after_actions(machine, before), last, asserted, address, bit);
        if is_bit_of(reset_ids, address, bit) {
            let i = choose|i: int|
                0 <= i < reset_ids.len() && is_reset(#[trigger] reset_ids[i]) && address
                    == reset_register(reset_ids[i]) && bit == reset_line_bit(reset_ids[i]);
            if i < rest.len() {
                assert(rest[i] == reset_ids[i]);
                assert(is_bit_of(rest, address, bit));
            }
        } else {
            if is_bit_of(rest, address, bit) {
                let i = choose|i: int|
                    0 <= i < rest.len() && is_reset(#[trigger] rest[i]) && address
                        == reset_register(rest[i]) && bit == reset_line_bit(rest[i]);
                assert(reset_ids[i] == rest[i]);
                assert(false);
            }
            assert(reset_ids[reset_ids.len() - 1] == last);
        }
    } else {
        assert(performed(resets_script(reset_ids, asserted), 0) =~= seq![]);
    }
}

/// Writing one reset leaves it held or released, if there is one of that
/// number, and changes no other bit of any register.
pub proof fn lemma_reset_written(
    machine: Machine,
    reset_id: u32,
    asserted: bool,
    address: int,
    bit: u32,
)
    requires
        bit < 32,
    ensures
        bit_of(
            (after_actions(machine, performed(reset_script(reset_id, asserted), 0)).registers)(
                address,
            ),
            bit,
        ) == if is_reset(reset_id) && address == reset_register(reset_id) && bit == reset_line_bit(
            reset_id,
        ) {
            asserted
        } else {
            bit_of((machine.registers)(address), bit)
        },
        forall|slot: Slot|
            slot != Slot::Cru ==> #[trigger] (after_actions(
                machine,
                performed(reset_script(reset_id, asserted), 0),
            ).base)(slot) == (machine.base)(slot),
{
    let script = reset_script(reset_id, asserted);
    lemma_performed_straight(script, 0);
    let actions = performed(script, 0);
    reveal_with_fuel(after_actions, 3);
    if is_reset(reset_id) {
        let write = reset_write(reset_id, asserted)->0;
        assert(actions =~= seq![
            Action::MapWindow { slot: Slot::Cru, window: write.window },
            Action::Write { slot: Slot::Cru, offset: write.offset, value: write.value },
        ]);
        assert(actions.drop_last() =~= seq![actions[0]]);
        assert(actions.drop_last().drop_last() =~= seq![]);
        assert(write.window.base + write.offset == reset_register(reset_id));
        assert((reset_location(reset_id)->0).2 == reset_line_bit(reset_id));
        lemma_single_bit(
            (machine.registers)(reset_register(reset_id)),
            reset_line_bit(reset_id),
            asserted,
        );
    } else {
        assert(actions =~= seq![]);
    }
}

/// The number of the PHY that a phandle stands for.
pub open spec fn phy_number(phandle: u32) -> int {
    if phandle == 0x110 {
        0
    } else if phandle == 0x1c5 {
        1
    } else {
        2
    }
}

/// What the register at `address` holds once PHY `n` is set up for PCIe.
pub open spec fn phy_setting(n: int, address: int, before: u32) -> u32 {
    let grf = 0xfd5b_c000 + n * 0x4000;
    let phy = 0xfee0_0000 + n * 0x1_0000;
    if address == grf {
        (before & 0xffff_0000) | 0x1000
    } else if address == grf + 0x4 {
        (before & 0xffff_0000) | 0x4000
    } else if address == grf + 0x8 {
        (before & 0xffff_0000) | 0x0101
    } else if address == grf + 0xc {
        (before & 0xffff_0000) | 0x0200
    } else if address == 0xfd5b_0100 && n == 1 {
        before & !1u32
    } else if address == 0xfd5b_0100 && n == 2 {
        before & !2u32
    } else if address == phy + 0x80 {
        (before & !0x1cu32) | 0x10
    } else if address == phy + 0x2c {
        4
    } else if address == phy + 0x6c {
        0x4c
    } else if address == phy + 0x28 {
        0xf0
    } else {
        before
    }
}

/// Whether an action accesses the control registers of a PHY or the PHY itself.
pub open spec fn is_phy_access(action: Action) -> bool {
    match action {
        Action::Write { slot, .. } => slot == Slot::PhyGrf || slot == Slot::PipeGrf || slot
            == Slot::Phy,
        Action::Update { slot, .. } => slot == Slot::PhyGrf || slot == Slot::PipeGrf || slot
            == Slot::Phy,
        _ => false,
    }
}

/// Whether `phys` names a PHY that is known and is to carry PCIe.
pub open spec fn names_phy(phys: Seq<u32>) -> bool {
    &&& phys.len() > 0
    &&& phys.len() > 1 ==> phys[1] == 2
    &&& phys[0] == 0x110 || phys[0] == 0x1c5 || phys[0] == 0x71
}

/// The actions that set a PHY up.
spec fn config_actions(phy: Rk3588Combphy) -> Seq<Action> {
    performed(combphy_script(phy), 0)
}

proof fn lemma_config_actions(phy: Rk3588Combphy)
    ensures
        config_actions(phy).len() == 3 + combphy_accesses(phy.id).len(),
        config_actions(phy)[0] == (Action::MapWindow {
            slot: Slot::PhyGrf,
            window: Window { base: phy.phy_grf_base, size: 0x100 },
        }),
        config_actions(phy)[1] == (Action::MapWindow {
            slot: Slot::PipeGrf,
            window: Window { base: phy.pipe_grf_base, size: 0x1000 },
        }),
        config_actions(phy)[2] == (Action::MapWindow {
            slot: Slot::Phy,
            window: Window { base: phy.mmio_base, size: 0x100 },
        }),
        forall|i: int|
            3 <= i < config_actions(phy).len() ==> #[trigger] config_actions(phy)[i]
                == combphy_accesses(phy.id)[i - 3],
{
    lemma_performed_straight(combphy_script(phy), 0);
    assert forall|i: int| 3 <= i < config_actions(phy).len() implies #[trigger] config_actions(
        phy,
    )[i] == combphy_accesses(phy.id)[i - 3] by {
        assert(combphy_script(phy)[i].action == combphy_accesses(phy.id)[i - 3]);
    }
}

proof fn lemma_config_effect(machine: Machine, phandle: u32, address: int)
    requires
        phandle_combphy(phandle) is Some,
    ensures
        (after_actions(machine, config_actions(phandle_combphy(phandle)->0)).registers)(address)
            == phy_setting(phy_number(phandle), address, (machine.registers)(address)),
{
    let phy = phandle_combphy(phandle)->0;
    let actions = config_actions(phy);
    lemma_config_actions(phy);
    assert(actions.take(actions.len() as int) =~= actions);
    lemma_after_first(machine, actions, actions.len() as int);
    super::phy::lemma_grf_values((machine.registers)(address));
    reveal_with_fuel(after_first, 14);
    if phy.id == 0 {
        assert(actions.len() == 12);
    } else {
        assert(actions.len() == 13);
    }
}

/// Setting a PHY up leaves every register outside its windows alone, all the
/// while.
proof fn lemma_config_stays_inside(
    machine: Machine,
    phy: Rk3588Combphy,
    count: int,
    address: int,
)
    requires
        0 <= count <= config_actions(phy).len(),
        !(phy.phy_grf_base <= address < phy.phy_grf_base + 0x100),
        !(phy.pipe_grf_base <= address < phy.pipe_grf_base + 0x1000),
        !(phy.mmio_base <= address < phy.mmio_base + 0x100),
    ensures
        (after_first(machine, config_actions(phy), count).registers)(address) == (
        machine.registers)(address),
        count >= 1 ==> (after_first(machine, config_actions(phy), count).base)(Slot::PhyGrf)
            == phy.phy_grf_base,
        count >= 2 ==> (after_first(machine, config_actions(phy), count).base)(Slot::PipeGrf)
            == phy.pipe_grf_base,
        count >= 3 ==> (after_first(machine, config_actions(phy), count).base)(Slot::Phy)
            == phy.mmio_base,
    decreases count,
{
    if count > 0 {
        lemma_config_stays_inside(machine, phy, count - 1, address);
        lemma_config_actions(phy);
        if count > 3 {
            assert(config_actions(phy)[count - 1] == combphy_accesses(phy.id)[count - 4]);
        }
    }
}

/// The clocks of the unit are enabled in their order.
pub proof fn lemma_unit_clocks(clock_ids: Seq<usize>)
    ensures
        performed(cru_clocks_script(clock_ids), 0).len() == 2 * clock_ids.len(),
        forall|k: int| #![trigger clock_ids[k]]
            0 <= k < clock_ids.len() ==> performed(cru_clocks_script(clock_ids), 0)[2 * k] == (
            Action::AcquireClock { phandle: 2 }) && performed(
                cru_clocks_script(clock_ids),
                0,
            )[2 * k + 1] == (Action::SetRate { clock: 0, rate: clock_ids[k] as u64 }),
    decreases clock_ids.len(),
{
    let actions = performed(cru_clocks_script(clock_ids), 0);
    if clock_ids.len() > 0 {
        let rest = clock_ids.drop_last();
        let last = cru_clock_script(clock_ids.last());
        lemma_unit_clocks(rest);
        lemma_cru_clocks_guarded(rest);
        lemma_performed_concat(cru_clocks_script(rest), last, 0);
        lemma_performed_straight(last, 0);
        let before = performed(cru_clocks_script(rest), 0);
        assert(actions == before + performed(last, 0));
        assert(performed(last, 0).len() == 2);
        assert forall|k: int| #![trigger clock_ids[k]] 0 <= k < clock_ids.len() implies actions[2
            * k] == (Action::AcquireClock { phandle: 2 }) && actions[2 * k + 1] == (
        Action::SetRate { clock: 0, rate: clock_ids[k] as u64 }) by {
            if k < rest.len() {
                assert(rest[k] == clock_ids[k]);
                assert(actions[2 * k] == before[2 * k]);
                assert(actions[2 * k + 1] == before[2 * k + 1]);
            } else {
                assert(actions[2 * k] == performed(last, 0)[0]);
                assert(actions[2 * k + 1] == performed(last, 0)[1]);
            }
        }
    } else {
        assert(actions =~= seq![]);
    }
}

/// What preparing a PHY performs, part by part.
proof fn lemma_prepare_parts(phy: Rk3588Combphy)
    ensures
        performed(prepare_script(phy), 0) == performed(
            cru_clocks_script(combphy_clocks(phy.id)),
            0,
        ) + performed(reset_script(phy.apb_reset, true), 0) + performed(
            reset_script(phy.phy_reset, true),
            0,
        ) + config_actions(phy) + performed(reset_script(phy.apb_reset, false), 0) + performed(
            reset_script(phy.phy_reset, false),
            0,
        ) + seq![Action::DelayMs(20)],
{
    let clocks = cru_clocks_script(combphy_clocks(phy.id));
    let apb_on = reset_script(phy.apb_reset, true);
    let phy_on = reset_script(phy.phy_reset, true);
    let config = combphy_script(phy);
    let apb_off = reset_script(phy.apb_reset, false);
    let phy_off = reset_script(phy.phy_reset, false);
    let all = prepare_script(phy);
    let wait = seq![all.last()];
    lemma_cru_clocks_guarded(combphy_clocks(phy.id));
    lemma_reset_script_guarded(phy.apb_reset, true);
    lemma_reset_script_guarded(phy.phy_reset, true);
    lemma_combphy_guarded(phy);
    lemma_reset_script_guarded(phy.apb_reset, false);
    lemma_reset_script_guarded(phy.phy_reset, false);
    lemma_closed_concat(clocks, apb_on);
    lemma_closed_concat(clocks + apb_on, phy_on);
    lemma_closed_concat(clocks + apb_on + phy_on, config);
    lemma_closed_concat(clocks + apb_on + phy_on + config, apb_off);
    lemma_closed_concat(clocks + apb_on + phy_on + config + apb_off, phy_off);
    lemma_performed_concat(clocks, apb_on, 0);
    lemma_performed_concat(clocks + apb_on, phy_on, 0);
    lemma_performed_concat(clocks + apb_on + phy_on, config, 0);
    lemma_performed_concat(clocks + apb_on + phy_on + config, apb_off, 0);
    lemma_performed_concat(clocks + apb_on + phy_on + config + apb_off, phy_off, 0);
    assert(all =~= clocks + apb_on + phy_on + config + apb_off + phy_off + wait);
    lemma_performed_concat(clocks + apb_on + phy_on + config + apb_off + phy_off, wait, 0);
    lemma_performed_straight(wait, 0);
    assert(performed(wait, 0) =~= seq![Action::DelayMs(20)]);
}

/// Preparing a PHY leaves both its resets released, its registers set up for
/// PCIe, and every other register, reset or not, as it was. It ends with a wait
/// of twenty milliseconds.
pub proof fn lemma_phy_prepared(machine: Machine, phys: Seq<u32>, address: int, bit: u32)
    requires
        names_phy(phys),
        bit < 32,
    ensures
        ({
            let n = phy_number(phys[0]);
            let actions = performed(phy_script(phys), 0);
            let after = after_actions(machine, actions);
            &&& !is_held(after.registers, (0x2_0005 + n) as u32)
            &&& !is_held(after.registers, (0x4d6 + n) as u32)
            &&& is_bit_of(seq![(0x2_0005 + n) as u32, (0x4d6 + n) as u32], address, bit)
                || bit_of((after.registers)(address), bit) == bit_of(
                phy_setting(n, address, (machine.registers)(address)),
                bit,
            )
            &&& actions.last() == Action::DelayMs(20)
        }),
{
    let phy = phandle_combphy(phys[0])->0;
    let n = phy_number(phys[0]);
    assert(wanted_phy(phys) == Some(phy));
    assert(phy.apb_reset == 0x2_0005 + n && phy.phy_reset == 0x4d6 + n);
    lemma_prepare_parts(phy);
    lemma_phy_at_end(machine, phys[0], address, bit);
    lemma_phy_at_end(
        machine,
        phys[0],
        reset_register(phy.apb_reset),
        reset_line_bit(phy.apb_reset),
    );
    lemma_phy_at_end(
        machine,
        phys[0],
        reset_register(phy.phy_reset),
        reset_line_bit(phy.phy_reset),
    );
    let own = seq![phy.apb_reset, phy.phy_reset];
    assert(own[0] == phy.apb_reset && own[1] == phy.phy_reset);
}

/// The machine before the PHY is set up: its resets are held.
spec fn machine_held(machine: Machine, phy: Rk3588Combphy) -> Machine {
    after_actions(
        after_actions(machine, performed(reset_script(phy.apb_reset, true), 0)),
        performed(reset_script(phy.phy_reset, true), 0),
    )
}

proof fn lemma_clocks_aloof(machine: Machine, clock_ids: Seq<usize>)
    ensures
        forall|i: int|
            0 <= i < performed(cru_clocks_script(clock_ids), 0).len() ==> is_aloof(
                #[trigger] performed(cru_clocks_script(clock_ids), 0)[i],
            ),
        after_actions(machine, performed(cru_clocks_script(clock_ids), 0)) == machine,
{
    let actions = performed(cru_clocks_script(clock_ids), 0);
    lemma_unit_clocks(clock_ids);
    assert forall|i: int| 0 <= i < actions.len() implies is_aloof(#[trigger] actions[i]) by {
        let k = i / 2;
        let clock_id = clock_ids[k];
        if i % 2 == 0 {
            assert(actions[2 * k] == actions[i]);
        } else {
            assert(actions[2 * k + 1] == actions[i]);
        }
    }
    lemma_after_aloof(machine, actions);
}

proof fn lemma_phy_at_end(machine: Machine, phandle: u32, address: int, bit: u32)
    requires
        phandle_combphy(phandle) is Some,
        bit < 32,
    ensures
        ({
            let phy = phandle_combphy(phandle)->0;
            let after = after_actions(machine, performed(prepare_script(phy), 0));
            bit_of((after.registers)(address), bit) == if (address == reset_register(phy.apb_reset)
                && bit == reset_line_bit(phy.apb_reset)) || (address == reset_register(
                phy.phy_reset,
            ) && bit == reset_line_bit(phy.phy_reset)) {
                false
            } else {
                bit_of(
                    phy_setting(phy_number(phandle), address, (machine.registers)(address)),
                    bit,
                )
            }
        }),
{
    let phy = phandle_combphy(phandle)->0;
    let clocks = performed(cru_clocks_script(combphy_clocks(phy.id)), 0);
    let apb_on = performed(reset_script(phy.apb_reset, true), 0);
    let phy_on = performed(reset_script(phy.phy_reset, true), 0);
    let config = config_actions(phy);
    let apb_off = performed(reset_script(phy.apb_reset, false), 0);
    let phy_off = performed(reset_script(phy.phy_reset, false), 0);
    let wait = seq![Action::DelayMs(20)];
    lemma_prepare_parts(phy);
    lemma_clocks_aloof(machine, combphy_clocks(phy.id));
    lemma_after_concat(machine, clocks, apb_on);
    lemma_after_concat(machine, clocks + apb_on, phy_on);
    lemma_after_concat(machine, clocks + apb_on + phy_on, config);
    lemma_after_concat(machine, clocks + apb_on + phy_on + config, apb_off);
    lemma_after_concat(machine, clocks + apb_on + phy_on + config + apb_off, phy_off);
    lemma_after_concat(machine, clocks + apb_on + phy_on + config + apb_off + phy_off, wait);
    let m1 = after_actions(machine, apb_on);
    let m2 = after_actions(m1, phy_on);
    let m3 = after_actions(m2, config);
    let m4 = after_actions(m3, apb_off);
    let m5 = after_actions(m4, phy_off);
    lemma_after_aloof(m5, wait);
    lemma_reset_written(machine, phy.apb_reset, true, address, bit);
    lemma_reset_written(m1, phy.phy_reset, true, address, bit);
    lemma_config_effect(m2, phandle, address);
    lemma_reset_written(m3, phy.apb_reset, false, address, bit);
    lemma_reset_written(m4, phy.phy_reset, false, address, bit);
    if address == reset_register(phy.apb_reset) || address == reset_register(phy.phy_reset) {
        assert(phy_setting(phy_number(phandle), address, (m2.registers)(address)) == (
        m2.registers)(address));
        assert(phy_setting(phy_number(phandle), address, (machine.registers)(address)) == (
        machine.registers)(address));
    } else {
        lemma_register_kept(machine, phy, address);
    }
}

/// Holding the resets of a PHY changes no register but theirs.
proof fn lemma_register_kept(machine: Machine, phy: Rk3588Combphy, address: int)
    requires
        is_reset(phy.apb_reset),
        is_reset(phy.phy_reset),
        address != reset_register(phy.apb_reset),
        address != reset_register(phy.phy_reset),
    ensures
        (machine_held(machine, phy).registers)(address) == (machine.registers)(address),
{
    let m1 = after_actions(machine, performed(reset_script(phy.apb_reset, true), 0));
    lemma_reset_elsewhere(machine, phy.apb_reset, true, address);
    lemma_reset_elsewhere(m1, phy.phy_reset, true, address);
}

proof fn lemma_reset_elsewhere(machine: Machine, reset_id: u32, asserted: bool, address: int)
    requires
        is_reset(reset_id),
        address != reset_register(reset_id),
    ensures
        (after_actions(machine, performed(reset_script(reset_id, asserted), 0)).registers)(address)
            == (machine.registers)(address),
{
    let script = reset_script(reset_id, asserted);
    lemma_performed_straight(script, 0);
    let actions = performed(script, 0);
    let write = reset_write(reset_id, asserted)->0;
    assert(actions =~= seq![
        Action::MapWindow { slot: Slot::Cru, window: write.window },
        Action::Write { slot: Slot::Cru, offset: write.offset, value: write.value },
    ]);
    assert(actions.drop_last() =~= seq![actions[0]]);
    assert(actions.drop_last().drop_last() =~= seq![]);
    assert(write.window.base + write.offset == reset_register(reset_id));
    reveal_with_fuel(after_actions, 3);
}

/// At every access to a PHY or its control registers, both resets of the PHY are
/// held.
pub proof fn lemma_phy_held_while_set_up(machine: Machine, phys: Seq<u32>, i: int)
    requires
        names_phy(phys),
        0 <= i < performed(phy_script(phys), 0).len(),
        is_phy_access(performed(phy_script(phys), 0)[i]),
    ensures
        ({
            let n = phy_number(phys[0]);
            let now = after_actions(machine, performed(phy_script(phys), 0).take(i));
            is_held(now.registers, (0x2_0005 + n) as u32) && is_held(
                now.registers,
                (0x4d6 + n) as u32,
            )
        }),
{
    let phy = phandle_combphy(phys[0])->0;
    assert(wanted_phy(phys) == Some(phy));
    let all = performed(phy_script(phys), 0);
    let clocks = performed(cru_clocks_script(combphy_clocks(phy.id)), 0);
    let apb_on = performed(reset_script(phy.apb_reset, true), 0);
    let phy_on = performed(reset_script(phy.phy_reset, true), 0);
    let config = config_actions(phy);
    let apb_off = performed(reset_script(phy.apb_reset, false), 0);
    let phy_off = performed(reset_script(phy.phy_reset, false), 0);
    lemma_prepare_parts(phy);
    lemma_clocks_aloof(machine, combphy_clocks(phy.id));
    lemma_reset_actions(phy.apb_reset, true);
    lemma_reset_actions(phy.phy_reset, true);
    lemma_reset_actions(phy.apb_reset, false);
    lemma_reset_actions(phy.phy_reset, false);
    let start = clocks + apb_on + phy_on;
    let s = start.len() as int;
    assert(all =~= start + config + (apb_off + phy_off + seq![Action::DelayMs(20)]));
    if i < s {
        if i < clocks.len() {
            assert(all[i] == clocks[i]);
        } else if i < clocks.len() + 2 {
            assert(all[i] == apb_on[i - clocks.len()]);
        } else {
            assert(all[i] == phy_on[i - clocks.len() - 2]);
        }
        assert(false);
    } else if i >= s + config.len() {
        let k = i - s - config.len();
        if k < 2 {
            assert(all[i] == apb_off[k]);
        } else if k < 4 {
            assert(all[i] == phy_off[k - 2]);
        }
        assert(false);
    } else {
        let count = i - s;
        assert(all.take(i) =~= start + config.take(count));
        lemma_after_concat(machine, start, config.take(count));
        lemma_after_concat(machine, clocks + apb_on, phy_on);
        lemma_after_concat(machine, clocks, apb_on);
        let held = machine_held(machine, phy);
        lemma_after_first(held, config, count);
        let at_apb = reset_register(phy.apb_reset);
        let at_phy = reset_register(phy.phy_reset);
        lemma_config_stays_inside(held, phy, count, at_apb);
        lemma_config_stays_inside(held, phy, count, at_phy);
        let m1 = after_actions(machine, apb_on);
        lemma_reset_written(machine, phy.apb_reset, true, at_apb, reset_line_bit(phy.apb_reset));
        lemma_reset_written(m1, phy.phy_reset, true, at_apb, reset_line_bit(phy.apb_reset));
        lemma_reset_written(m1, phy.phy_reset, true, at_phy, reset_line_bit(phy.phy_reset));
    }
}

proof fn lemma_reset_actions(reset_id: u32, asserted: bool)
    ensures
        is_reset(reset_id) ==> performed(reset_script(reset_id, asserted), 0).len() == 2,
        !is_reset(reset_id) ==> performed(reset_script(reset_id, asserted), 0).len() == 0,
        forall|i: int|
            0 <= i < performed(reset_script(reset_id, asserted), 0).len() ==> is_reset_action(
                #[trigger] performed(reset_script(reset_id, asserted), 0)[i],
            ),
{
    lemma_performed_straight(reset_script(reset_id, asserted), 0);
}

/// Whether an action maps or writes the clock and reset unit.
pub open spec fn is_reset_action(action: Action) -> bool {
    match action {
        Action::MapWindow { slot, .. } => slot == Slot::Cru,
        Action::Write { slot, .. } => slot == Slot::Cru,
        _ => false,
    }
}

/// The clocks of a PHY are enabled before anything else is done to it.
pub proof fn lemma_phy_clocks_first(phys: Seq<u32>, k: int)
    requires
        names_phy(phys),
        0 <= k < 5,
    ensures
        ({
            let n = phy_number(phys[0]);
            let actions = performed(phy_script(phys), 0);
            let numbers = seq![374 + n, 377, 340 + n, 364 + n, 367 + n];
            &&& actions.len() > 10
            &&& actions[2 * k] == (Action::AcquireClock { phandle: 2 })
            &&& actions[2 * k + 1] == (Action::SetRate { clock: 0, rate: numbers[k] as u64 })
        }),
{
    let phy = phandle_combphy(phys[0])->0;
    assert(wanted_phy(phys) == Some(phy));
    let ids = combphy_clocks(phy.id);
    let clocks = performed(cru_clocks_script(ids), 0);
    lemma_prepare_parts(phy);
    lemma_unit_clocks(ids);
    let id = ids[k];
    let all = performed(phy_script(phys), 0);
    assert(all[2 * k] == clocks[2 * k]);
    assert(all[2 * k + 1] == clocks[2 * k + 1]);
}

/// Nothing is done where `phys` names no PHY that is known and is to carry PCIe.
pub proof fn lemma_no_phy(phys: Seq<u32>)
    requires
        !names_phy(phys),
    ensures
        phy_script(phys).len() == 0,
{
}

/// A reset that is held stays so while the clocks of a PHY are enabled and while
/// the PHY is set up.
pub proof fn lemma_phy_keeps_held(machine: Machine, phys: Seq<u32>, i: int, reset_id: u32)
    requires
        is_reset(reset_id),
        is_held(machine.registers, reset_id),
        0 <= i < performed(phy_script(phys), 0).len(),
        is_phy_access(performed(phy_script(phys), 0)[i]) || performed(phy_script(phys), 0)[i] is
            AcquireClock || performed(phy_script(phys), 0)[i] is SetRate,
    ensures
        is_held(
            after_actions(machine, performed(phy_script(phys), 0).take(i)).registers,
            reset_id,
        ),
{
    if !names_phy(phys) {
        lemma_no_phy(phys);
        assert(performed(phy_script(phys), 0) =~= seq![]);
    }
    let phy = phandle_combphy(phys[0])->0;
    assert(wanted_phy(phys) == Some(phy));
    let all = performed(phy_script(phys), 0);
    let clocks = performed(cru_clocks_script(combphy_clocks(phy.id)), 0);
    let apb_on = performed(reset_script(phy.apb_reset, true), 0);
    let phy_on = performed(reset_script(phy.phy_reset, true), 0);
    let config = config_actions(phy);
    let apb_off = performed(reset_script(phy.apb_reset, false), 0);
    let phy_off = performed(reset_script(phy.phy_reset, false), 0);
    lemma_prepare_parts(phy);
    lemma_clocks_aloof(machine, combphy_clocks(phy.id));
    lemma_reset_actions(phy.apb_reset, true);
    lemma_reset_actions(phy.phy_reset, true);
    lemma_reset_actions(phy.apb_reset, false);
    lemma_reset_actions(phy.phy_reset, false);
    let start = clocks + apb_on + phy_on;
    let s = start.len() as int;
    assert(all =~= start + config + (apb_off + phy_off + seq![Action::DelayMs(20)]));
    if i < clocks.len() {
        assert(all.take(i) =~= clocks.take(i));
        lemma_after_aloof(machine, clocks.take(i));
    } else if i < s {
        if i < clocks.len() + 2 {
            assert(all[i] == apb_on[i - clocks.len()]);
        } else {
            assert(all[i] == phy_on[i - clocks.len() - 2]);
        }
        assert(false);
    } else if i >= s + config.len() {
        let k = i - s - config.len();
        if k < 2 {
            assert(all[i] == apb_off[k]);
        } else if k < 4 {
            assert(all[i] == phy_off[k - 2]);
        }
        assert(false);
    } else {
        let count = i - s;
        assert(all.take(i) =~= start + config.take(count));
        lemma_after_concat(machine, start, config.take(count));
        lemma_after_concat(machine, clocks + apb_on, phy_on);
        lemma_after_concat(machine, clocks, apb_on);
        let held = machine_held(machine, phy);
        lemma_after_first(held, config, count);
        let at = reset_register(reset_id);
        lemma_config_stays_inside(held, phy, count, at);
        let m1 = after_actions(machine, apb_on);
        lemma_reset_written(machine, phy.apb_reset, true, at, reset_line_bit(reset_id));
        lemma_reset_written(m1, phy.phy_reset, true, at, reset_line_bit(reset_id));
    }
}

/// Writing resets does nothing but that.
pub proof fn lemma_resets_only(reset_ids: Seq<u32>, asserted: bool, i: int)
    ensures
        0 <= i < performed(resets_script(reset_ids, asserted), 0).len() ==> is_reset_action(
            performed(resets_script(reset_ids, asserted), 0)[i],
        ),
    decreases reset_ids.len(),
{
    if reset_ids.len() > 0 {
        let rest = resets_script(reset_ids.drop_last(), asserted);
        let last = reset_script(reset_ids.last(), asserted);
        lemma_resets_only(reset_ids.drop_last(), asserted, i);
        lemma_resets_script_guarded(reset_ids.drop_last(), asserted);
        lemma_performed_concat(rest, last, 0);
        lemma_reset_actions(reset_ids.last(), asserted);
        if performed(rest, 0).len() <= i < performed(resets_script(reset_ids, asserted), 0).len() {
            let k = i - performed(rest, 0).len();
            assert(performed(resets_script(reset_ids, asserted), 0)[i] == performed(last, 0)[k]);
        }
    }
}

/// Preparing a PHY enables no peripheral clocks and powers nothing.
pub proof fn lemma_phy_unmentioned(phys: Seq<u32>, i: int)
    ensures
        0 <= i < performed(phy_script(phys), 0).len() ==> !(performed(phy_script(phys), 0)[i] is
            PeripheralEnable) && !(performed(phy_script(phys), 0)[i] is PowerOn),
{
    let all = performed(phy_script(phys), 0);
    if !names_phy(phys) {
        lemma_no_phy(phys);
        assert(all =~= seq![]);
    } else if 0 <= i < all.len() {
        let phy = phandle_combphy(phys[0])->0;
        assert(wanted_phy(phys) == Some(phy));
        let ids = combphy_clocks(phy.id);
        let clocks = performed(cru_clocks_script(ids), 0);
        let apb_on = performed(reset_script(phy.apb_reset, true), 0);
        let phy_on = performed(reset_script(phy.phy_reset, true), 0);
        let config = config_actions(phy);
        let apb_off = performed(reset_script(phy.apb_reset, false), 0);
        let phy_off = performed(reset_script(phy.phy_reset, false), 0);
        lemma_prepare_parts(phy);
        lemma_unit_clocks(ids);
        lemma_config_actions(phy);
        lemma_reset_actions(phy.apb_reset, true);
        lemma_reset_actions(phy.phy_reset, true);
        lemma_reset_actions(phy.apb_reset, false);
        lemma_reset_actions(phy.phy_reset, false);
        let c = clocks.len() as int;
        let g = config.len() as int;
        if i < c {
            let k = i / 2;
            let id = ids[k];
            assert(all[i] == clocks[i]);
            if i % 2 == 0 {
                assert(clocks[2 * k] == clocks[i]);
            } else {
                assert(clocks[2 * k + 1] == clocks[i]);
            }
        } else if i < c + 2 {
            assert(all[i] == apb_on[i - c]);
        } else if i < c + 4 {
            assert(all[i] == phy_on[i - c - 2]);
        } else if i < c + 4 + g {
            assert(all[i] == config[i - c - 4]);
        } else if i < c + 6 + g {
            assert(all[i] == apb_off[i - c - 4 - g]);
        } else if i < c + 8 + g {
            assert(all[i] == phy_off[i - c - 6 - g]);
        }
    }
}

/// Preparing a PHY leaves every reset but the two of the PHY as it was.
pub proof fn lemma_other_resets_kept(machine: Machine, phys: Seq<u32>, other: u32)
    requires
        is_reset(other),
        names_phy(phys) ==> other != 0x2_0005 + phy_number(phys[0]) && other != 0x4d6 + phy_number(
            phys[0],
        ),
    ensures
        is_held(after_actions(machine, performed(phy_script(phys), 0)).registers, other) == is_held(
            machine.registers,
            other,
        ),
{
    if names_phy(phys) {
        let n = phy_number(phys[0]);
        let at = reset_register(other);
        let bit = reset_line_bit(other);
        lemma_phy_prepared(machine, phys, at, bit);
        let own = seq![(0x2_0005 + n) as u32, (0x4d6 + n) as u32];
        assert forall|k: int|
            #![trigger own[k]]
            0 <= k < own.len() implies reset_register(own[k]) != at || reset_line_bit(own[k])
            != bit by {
            if k == 0 {
                assert(own[k] == 0x2_0005 + n);
            } else {
                assert(own[k] == 0x4d6 + n);
            }
        }
    } else {
        lemma_no_phy(phys);
        assert(performed(phy_script(phys), 0) =~= seq![]);
    }
}

/// The resets of a PHY are asserted as soon as its clocks are enabled, first that
/// of its registers and then its own, and released in the same order at the end.
pub proof fn lemma_phy_reset_order(phys: Seq<u32>)
    requires
        names_phy(phys),
    ensures
        ({
            let n = phy_number(phys[0]);
            let actions = performed(phy_script(phys), 0);
            let last = actions.len() - 1;
            &&& last >= 18
            &&& resets_with(actions[10], actions[11], (0x2_0005 + n) as u32, true)
            &&& resets_with(actions[12], actions[13], (0x4d6 + n) as u32, true)
            &&& resets_with(actions[last - 4], actions[last - 3], (0x2_0005 + n) as u32, false)
            &&& resets_with(actions[last - 2], actions[last - 1], (0x4d6 + n) as u32, false)
        }),
{
    let phy = phandle_combphy(phys[0])->0;
    let n = phy_number(phys[0]);
    assert(wanted_phy(phys) == Some(phy));
    let ids = combphy_clocks(phy.id);
    let clocks = performed(cru_clocks_script(ids), 0);
    let apb_on = performed(reset_script(phy.apb_reset, true), 0);
    let phy_on = performed(reset_script(phy.phy_reset, true), 0);
    let config = config_actions(phy);
    let apb_off = performed(reset_script(phy.apb_reset, false), 0);
    let phy_off = performed(reset_script(phy.phy_reset, false), 0);
    let all = performed(phy_script(phys), 0);
    lemma_prepare_parts(phy);
    lemma_unit_clocks(ids);
    lemma_config_actions(phy);
    lemma_reset_pair(phy.apb_reset, true);
    lemma_reset_pair(phy.phy_reset, true);
    lemma_reset_pair(phy.apb_reset, false);
    lemma_reset_pair(phy.phy_reset, false);
    let g = config.len() as int;
    assert(clocks.len() == 10);
    assert(all[10] == apb_on[0] && all[11] == apb_on[1]);
    assert(all[12] == phy_on[0] && all[13] == phy_on[1]);
    assert(all[14 + g] == apb_off[0] && all[15 + g] == apb_off[1]);
    assert(all[16 + g] == phy_off[0] && all[17 + g] == phy_off[1]);
}

/// Whether two actions map the unit of a reset and write there, so that just that
/// reset is asserted or released.
pub open spec fn resets_with(map: Action, write: Action, reset_id: u32, asserted: bool) -> bool {
    &&& map matches Action::MapWindow { slot, window } && slot == Slot::Cru && (
    write matches Action::Write { slot: to, offset, value } && to == Slot::Cru && window.base
        + offset == reset_register(reset_id) && forall|before: u32|
        bit_of(#[trigger] hiword_apply(before, value), reset_line_bit(reset_id)) == asserted)
}

proof fn lemma_reset_pair(reset_id: u32, asserted: bool)
    requires
        is_reset(reset_id),
    ensures
        performed(reset_script(reset_id, asserted), 0).len() == 2,
        resets_with(
            performed(reset_script(reset_id, asserted), 0)[0],
            performed(reset_script(reset_id, asserted), 0)[1],
            reset_id,
            asserted,
        ),
{
    lemma_performed_straight(reset_script(reset_id, asserted), 0);
    let write = reset_write(reset_id, asserted)->0;
    let (base, bank, bit) = reset_location(reset_id)->0;
    assert forall|before: u32|
        bit_of(#[trigger] hiword_apply(before, write.value), reset_line_bit(reset_id))
            == asserted by {
        lemma_single_bit(before, bit, asserted);
    }
    assert(write.window.base + write.offset == reset_register(reset_id));
}

} // verus!
