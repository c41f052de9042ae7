//! The combined PHYs that carry the lanes of the PCIe hosts.
use super::clock::{
    cru_clock_script, enable_clock_id, lemma_cru_clock_guarded, RK3588_CLK_PIPEPHY0_PIPE_ASIC_G,
    RK3588_CLK_PIPEPHY0_PIPE_G, RK3588_CLK_PIPEPHY0_REF, RK3588_CLK_PIPEPHY1_PIPE_ASIC_G,
    RK3588_CLK_PIPEPHY1_PIPE_G, RK3588_CLK_PIPEPHY1_REF, RK3588_CLK_PIPEPHY2_PIPE_ASIC_G,
    RK3588_CLK_PIPEPHY2_PIPE_G, RK3588_CLK_PIPEPHY2_REF, RK3588_PCLK_PCIE_COMBO_PIPE_PHY,
    RK3588_PCLK_PCIE_COMBO_PIPE_PHY0, RK3588_PCLK_PCIE_COMBO_PIPE_PHY1,
    RK3588_PCLK_PCIE_COMBO_PIPE_PHY2,
};
use super::effects::{is_held, lemma_phy_prepared, names_phy, phy_number};
use super::reset::{
    lemma_reset_script_guarded, push_assert, push_deassert, reset_script,
};
use crate::guard::{
    closed, guarded, lemma_closed_concat, lemma_guarded_concat, lemma_guarded_if_unneeding,
    lemma_straight_reaches, needs, provided_at, straight, Resource,
};
use crate::hiword::{field_word, hiword_apply, hiword_field, masked_update};
use crate::model::{after_actions, performed, Machine};
use crate::script::{
    plain, plain_instr, reaches, required, required_instr, Action, Instr, OnFailure, Slot, Window,
};
use vstd::prelude::*;

verus! {

/// How long a PHY takes after its resets have been released, in milliseconds.
pub const RK3588_PCIE_PHY_STABLE_MS: u64 = 20;

/// The cell of `phys` that asks for a PHY to carry PCIe.
pub const RK3588_PHY_TYPE_PCIE: u32 = 2;

pub const RK3588_PHYREG11: usize = 0x28;

pub const RK3588_PHYREG12: usize = 0x2c;

pub const RK3588_PHYREG27: usize = 0x6c;

pub const RK3588_PHYREG33: usize = 0x80;

pub const RK3588_PHYREG11_SU_TRIM_0_7: u32 = 0xf0;

pub const RK3588_PHYREG12_PLL_LPF_ADJ_VALUE: u32 = 4;

pub const RK3588_PHYREG27_RX_TRIM: u32 = 0x4c;

pub const RK3588_PHYREG33_PLL_KVCO_MASK: u32 = 0x1c;

pub const RK3588_PHYREG33_PLL_KVCO_SHIFT: u32 = 2;

/// A combined PHY.
#[derive(Clone, Copy, Debug, PartialEq, Eq)]
pub struct Rk3588Combphy {
    pub id: u8,
    pub mmio_base: u64,
    pub phy_grf_base: u64,
    pub pipe_grf_base: u64,
    pub apb_reset: u32,
    pub phy_reset: u32,
}

/// The combined PHY of that number.
pub open spec fn combphy(id: u8) -> Rk3588Combphy {
    Rk3588Combphy {
        id,
        mmio_base: (0xfee0_0000 + id * 0x1_0000) as u64,
        phy_grf_base: (0xfd5b_c000 + id * 0x4000) as u64,
        pipe_grf_base: 0xfd5b_0000,
        apb_reset: (0x2_0005 + id) as u32,
        phy_reset: (0x4d6 + id) as u32,
    }
}

/// The combined PHY that a phandle stands for.
pub open spec fn phandle_combphy(phandle: u32) -> Option<Rk3588Combphy> {
    if phandle == 0x110 {
        Some(combphy(0))
    } else if phandle == 0x1c5 {
        Some(combphy(1))
    } else if phandle == 0x71 {
        Some(combphy(2))
    } else {
        None
    }
}

/// The combined PHY that a phandle stands for.
pub fn rk3588_naneng_combphy(phandle: u32) -> (phy: Option<Rk3588Combphy>)
    ensures
        phy == phandle_combphy(phandle),
{
    match phandle {
        0x110 => Some(
            Rk3588Combphy {
                id: 0,
                mmio_base: 0xfee0_0000,
                phy_grf_base: 0xfd5b_c000,
                pipe_grf_base: 0xfd5b_0000,
                apb_reset: 0x20005,
                phy_reset: 0x4d6,
            },
        ),
        0x1c5 => Some(
            Rk3588Combphy {
                id: 1,
                mmio_base: 0xfee1_0000,
                phy_grf_base: 0xfd5c_0000,
                pipe_grf_base: 0xfd5b_0000,
                apb_reset: 0x20006,
                phy_reset: 0x4d7,
            },
        ),
        0x71 => Some(
            Rk3588Combphy {
                id: 2,
                mmio_base: 0xfee2_0000,
                phy_grf_base: 0xfd5c_4000,
                pipe_grf_base: 0xfd5b_0000,
                apb_reset: 0x20007,
                phy_reset: 0x4d8,
            },
        ),
        _ => None,
    }
}

/// The clocks of a PHY, by their numbers.
pub open spec fn combphy_clocks(id: u8) -> Seq<usize> {
    if id <= 2 {
        seq![
            (374 + id) as usize,
            377,
            (340 + id) as usize,
            (364 + id) as usize,
            (367 + id) as usize,
        ]
    } else {
        seq![]
    }
}

/// The script that enables clocks of the clock and reset unit, one after the
/// other.
pub open spec fn cru_clocks_script(clock_ids: Seq<usize>) -> Seq<Instr>
    decreases clock_ids.len(),
{
    if clock_ids.len() == 0 {
        seq![]
    } else {
        cru_clocks_script(clock_ids.drop_last()) + cru_clock_script(clock_ids.last())
    }
}

/// Adds the script that enables the clocks of a PHY. One that is not known has
/// none.
pub fn enable_combphy_clocks(script: &mut Vec<Instr>, phy: Rk3588Combphy)
    ensures
        final(script)@ == old(script)@ + cru_clocks_script(combphy_clocks(phy.id)),
{
    let clocks: [usize; 5] = match phy.id {
        0 => [
            RK3588_PCLK_PCIE_COMBO_PIPE_PHY0,
            RK3588_PCLK_PCIE_COMBO_PIPE_PHY,
            RK3588_CLK_PIPEPHY0_REF,
            RK3588_CLK_PIPEPHY0_PIPE_G,
            RK3588_CLK_PIPEPHY0_PIPE_ASIC_G,
        ],
        1 => [
            RK3588_PCLK_PCIE_COMBO_PIPE_PHY1,
            RK3588_PCLK_PCIE_COMBO_PIPE_PHY,
            RK3588_CLK_PIPEPHY1_REF,
            RK3588_CLK_PIPEPHY1_PIPE_G,
            RK3588_CLK_PIPEPHY1_PIPE_ASIC_G,
        ],
        2 => [
            RK3588_PCLK_PCIE_COMBO_PIPE_PHY2,
            RK3588_PCLK_PCIE_COMBO_PIPE_PHY,
            RK3588_CLK_PIPEPHY2_REF,
            RK3588_CLK_PIPEPHY2_PIPE_G,
            RK3588_CLK_PIPEPHY2_PIPE_ASIC_G,
        ],
        _ => {
            assert(script@ =~= old(script)@ + cru_clocks_script(combphy_clocks(phy.id)));
            return ;
        },
    };
    assert(clocks@ =~= combphy_clocks(phy.id));
    let ghost before = script@;
    let mut i: usize = 0;
    assert(script@ =~= before + cru_clocks_script(clocks@.take(0)));
    while i < 5
        invariant
            i <= 5,
            clocks@.len() == 5,
            script@ == before + cru_clocks_script(clocks@.take(i as int)),
        decreases 5 - i,
    {
        enable_clock_id(script, clocks[i]);
        assert(clocks@.take(i + 1).drop_last() =~= clocks@.take(i as int));
        i = i + 1;
        assert(script@ =~= before + cru_clocks_script(clocks@.take(i as int)));
    }
    assert(clocks@.take(5) =~= clocks@);
}

/// The write that puts `value` into the bits `bitstart..=bitend` of a control
/// register.
pub open spec fn grf_write(slot: Slot, offset: usize, bitend: u32, bitstart: u32, value: u32) -> Action {
    Action::Write { slot, offset, value: hiword_field(bitend, bitstart, value) }
}

/// The write that puts `value` into the bits `bitstart..=bitend` of a control
/// register.
pub fn grf_param_write(slot: Slot, offset: usize, bitend: u32, bitstart: u32, value: u32) -> (action:
    Action)
    requires
        bitstart <= bitend,
        bitstart < 32,
        bitend - bitstart < u32::MAX,
    ensures
        action == grf_write(slot, offset, bitend, bitstart, value),
{
    Action::Write { slot, offset, value: field_word(bitend, bitstart, value) }
}

/// The windows of a PHY.
pub open spec fn combphy_windows(phy: Rk3588Combphy) -> Seq<Action> {
    seq![
        Action::MapWindow {
            slot: Slot::PhyGrf,
            window: Window { base: phy.phy_grf_base, size: 0x100 },
        },
        Action::MapWindow {
            slot: Slot::PipeGrf,
            window: Window { base: phy.pipe_grf_base, size: 0x1000 },
        },
        Action::MapWindow { slot: Slot::Phy, window: Window { base: phy.mmio_base, size: 0x100 } },
    ]
}

/// The writes to the shared control registers that release the PHY from the
/// other interfaces that it can carry.
pub open spec fn pipe_writes(id: u8) -> Seq<Action> {
    if id == 1 {
        seq![grf_write(Slot::PipeGrf, 0x100, 0, 0, 0)]
    } else if id == 2 {
        seq![grf_write(Slot::PipeGrf, 0x100, 1, 1, 0)]
    } else {
        seq![]
    }
}

/// The accesses that set a PHY up for PCIe.
pub open spec fn combphy_accesses(id: u8) -> Seq<Action> {
    seq![
        grf_write(Slot::PhyGrf, 0x0, 15, 0, 0x1000),
        grf_write(Slot::PhyGrf, 0x4, 15, 0, 0x0000),
        grf_write(Slot::PhyGrf, 0x8, 15, 0, 0x0101),
        grf_write(Slot::PhyGrf, 0xc, 15, 0, 0x0200),
    ] + pipe_writes(id) + seq![
        grf_write(Slot::PhyGrf, 0x4, 14, 13, 0x02),
        Action::Update {
            slot: Slot::Phy,
            offset: RK3588_PHYREG33,
            mask: RK3588_PHYREG33_PLL_KVCO_MASK,
            value: 0x10,
        },
        Action::Write {
            slot: Slot::Phy,
            offset: RK3588_PHYREG12,
            value: RK3588_PHYREG12_PLL_LPF_ADJ_VALUE,
        },
        Action::Write { slot: Slot::Phy, offset: RK3588_PHYREG27, value: RK3588_PHYREG27_RX_TRIM },
        Action::Write {
            slot: Slot::Phy,
            offset: RK3588_PHYREG11,
            value: RK3588_PHYREG11_SU_TRIM_0_7,
        },
    ]
}

/// The script that sets a PHY up for PCIe. Where one of its windows cannot be
/// mapped, nothing is written and the run ends.
pub open spec fn combphy_script(phy: Rk3588Combphy) -> Seq<Instr> {
    combphy_windows(phy).map_values(|action: Action| required(action)) + combphy_accesses(
        phy.id,
    ).map_values(|action: Action| plain(action))
}

/// Adds the script that sets a PHY up for PCIe.
pub fn rk3588_combphy_config_pcie(script: &mut Vec<Instr>, _apb_base: u64, phy: Rk3588Combphy)
    ensures
        final(script)@ == old(script)@ + combphy_script(phy),
{
    script.push(
        required_instr(
            Action::MapWindow {
                slot: Slot::PhyGrf,
                window: Window { base: phy.phy_grf_base, size: 0x100 },
            },
        ),
    );
    script.push(
        required_instr(
            Action::MapWindow {
                slot: Slot::PipeGrf,
                window: Window { base: phy.pipe_grf_base, size: 0x1000 },
            },
        ),
    );
    script.push(
        required_instr(
            Action::MapWindow {
                slot: Slot::Phy,
                window: Window { base: phy.mmio_base, size: 0x100 },
            },
        ),
    );

    script.push(plain_instr(grf_param_write(Slot::PhyGrf, 0x0000, 15, 0, 0x1000)));
    script.push(plain_instr(grf_param_write(Slot::PhyGrf, 0x0004, 15, 0, 0x0000)));
    script.push(plain_instr(grf_param_write(Slot::PhyGrf, 0x0008, 15, 0, 0x0101)));
    script.push(plain_instr(grf_param_write(Slot::PhyGrf, 0x000c, 15, 0, 0x0200)));
    if phy.id == 1 {
        script.push(plain_instr(grf_param_write(Slot::PipeGrf, 0x0100, 0, 0, 0x0)));
    } else if phy.id == 2 {
        script.push(plain_instr(grf_param_write(Slot::PipeGrf, 0x0100, 1, 1, 0x0)));
    }
    script.push(plain_instr(grf_param_write(Slot::PhyGrf, 0x0004, 14, 13, 0x02)));

    assert(4u32 << 2u32 == 0x10) by (bit_vector);
    script.push(
        plain_instr(
            Action::Update {
                slot: Slot::Phy,
                offset: RK3588_PHYREG33,
                mask: RK3588_PHYREG33_PLL_KVCO_MASK,
                value: 4u32 << RK3588_PHYREG33_PLL_KVCO_SHIFT,
            },
        ),
    );
    script.push(
        plain_instr(
            Action::Write {
                slot: Slot::Phy,
                offset: RK3588_PHYREG12,
                value: RK3588_PHYREG12_PLL_LPF_ADJ_VALUE,
            },
        ),
    );
    script.push(
        plain_instr(
            Action::Write {
                slot: Slot::Phy,
                offset: RK3588_PHYREG27,
                value: RK3588_PHYREG27_RX_TRIM,
            },
        ),
    );
    script.push(
        plain_instr(
            Action::Write {
                slot: Slot::Phy,
                offset: RK3588_PHYREG11,
                value: RK3588_PHYREG11_SU_TRIM_0_7,
            },
        ),
    );
    assert(script@ =~= old(script)@ + combphy_script(phy));
}

/// The PHY to prepare, by the cells of the property `phys`: that of the first
/// cell, where it is known and the second cell (if there is one) asks for
/// PCIe.
pub open spec fn wanted_phy(phys: Seq<u32>) -> Option<Rk3588Combphy> {
    if phys.len() == 0 {
        None
    } else if phys.len() >= 2 && phys[1] != RK3588_PHY_TYPE_PCIE {
        None
    } else {
        phandle_combphy(phys[0])
    }
}

/// The script that prepares one PHY: its clocks, its resets asserted, its set
/// up, its resets released, and a wait.
pub open spec fn prepare_script(phy: Rk3588Combphy) -> Seq<Instr> {
    cru_clocks_script(combphy_clocks(phy.id)) + reset_script(phy.apb_reset, true) + reset_script(
        phy.phy_reset,
        true,
    ) + combphy_script(phy) + reset_script(phy.apb_reset, false) + reset_script(
        phy.phy_reset,
        false,
    ) + seq![plain(Action::DelayMs(RK3588_PCIE_PHY_STABLE_MS))]
}

/// The script that prepares the PHY of a host; nothing where there is none
/// that is known and carries PCIe.
pub open spec fn phy_script(phys: Seq<u32>) -> Seq<Instr> {
    match wanted_phy(phys) {
        Some(phy) => prepare_script(phy),
        None => seq![],
    }
}

/// The script that prepares the PHY of a host, by the cells of its property
/// `phys`.
pub fn prepare_pcie_phy(phys: &[u32], apb_base: u64) -> (script: Vec<Instr>)
    ensures
        script@ == phy_script(phys@),
        names_phy(phys@) ==> forall|machine: Machine| {
            let after = #[trigger] after_actions(machine, performed(script@, 0));
            !is_held(after.registers, (0x2_0005 + phy_number(phys@[0])) as u32) && !is_held(
                after.registers,
                (0x4d6 + phy_number(phys@[0])) as u32,
            )
        },
{
    let mut script: Vec<Instr> = Vec::new();
    if phys.len() == 0 {
        return script;
    }
    let phandle: u32 = phys[0];
    let phy_type: u32 = if phys.len() >= 2 {
        phys[1]
    } else {
        RK3588_PHY_TYPE_PCIE
    };
    if phy_type != RK3588_PHY_TYPE_PCIE {
        return script;
    }
    let phy = match rk3588_naneng_combphy(phandle) {
        Some(phy) => phy,
        None => return script,
    };
    enable_combphy_clocks(&mut script, phy);
    push_assert(&mut script, phy.apb_reset);
    push_assert(&mut script, phy.phy_reset);
    rk3588_combphy_config_pcie(&mut script, apb_base, phy);
    push_deassert(&mut script, phy.apb_reset);
    push_deassert(&mut script, phy.phy_reset);
    script.push(plain_instr(Action::DelayMs(RK3588_PCIE_PHY_STABLE_MS)));
    assert(script@ =~= phy_script(phys@));
    proof {
        assert forall|machine: Machine| {
            let after = #[trigger] after_actions(machine, performed(script@, 0));
            !is_held(after.registers, (0x2_0005 + phy_number(phys@[0])) as u32) && !is_held(
                after.registers,
                (0x4d6 + phy_number(phys@[0])) as u32,
            )
        } by {
            lemma_phy_prepared(machine, phys@, 0, 0);
        }
    }
    script
}

/// The clocks of a PHY are set only where their device has been acquired.
pub proof fn lemma_cru_clocks_guarded(clock_ids: Seq<usize>)
    ensures
        closed(cru_clocks_script(clock_ids)),
        guarded(cru_clocks_script(clock_ids)),
    decreases clock_ids.len(),
{
    if clock_ids.len() > 0 {
        let first = cru_clocks_script(clock_ids.drop_last());
        let last = cru_clock_script(clock_ids.last());
        lemma_cru_clocks_guarded(clock_ids.drop_last());
        lemma_cru_clock_guarded(clock_ids.last());
        lemma_closed_concat(first, last);
        lemma_guarded_concat(first, last);
    }
}

/// Setting a PHY up accesses only the windows that have been mapped for it.
pub proof fn lemma_combphy_guarded(phy: Rk3588Combphy)
    ensures
        closed(combphy_script(phy)),
        guarded(combphy_script(phy)),
        straight(combphy_script(phy)),
{
    let script = combphy_script(phy);
    assert forall|i: int| #![trigger script[i]] 0 <= i < script.len() implies script[i].on_success
        == 0 && (script[i].on_failure == OnFailure::Continue || script[i].on_failure
        == OnFailure::Abort) by {}
    assert forall|ok: spec_fn(int) -> bool, i: int, resource: Resource, bytes: int|
        0 <= i < script.len() && #[trigger] reaches(script, ok, 0, i) && #[trigger] needs(
            script[i].action,
            resource,
            bytes,
        ) implies exists|j: int| provided_at(script, ok, i, resource, bytes, j) by {
        assert(i >= 3);
        lemma_straight_reaches(script, ok, 0, i);
        assert(script[0].on_failure == OnFailure::Abort);
        assert(script[1].on_failure == OnFailure::Abort);
        assert(script[2].on_failure == OnFailure::Abort);
        lemma_straight_reaches(script, ok, 0, 0);
        lemma_straight_reaches(script, ok, 0, 1);
        lemma_straight_reaches(script, ok, 0, 2);
        assert(script[i].action == combphy_accesses(phy.id)[i - 3]);
        if resource == Resource::Window(Slot::PhyGrf) {
            assert(provided_at(script, ok, i, resource, bytes, 0));
        } else if resource == Resource::Window(Slot::PipeGrf) {
            assert(provided_at(script, ok, i, resource, bytes, 1));
        } else {
            assert(provided_at(script, ok, i, resource, bytes, 2));
        }
    }
}

/// Preparing a PHY uses only what it has got hold of.
pub proof fn lemma_phy_script_guarded(phys: Seq<u32>)
    ensures
        closed(phy_script(phys)),
        guarded(phy_script(phys)),
{
    if let Some(phy) = wanted_phy(phys) {
        let clocks = cru_clocks_script(combphy_clocks(phy.id));
        let apb_on = reset_script(phy.apb_reset, true);
        let phy_on = reset_script(phy.phy_reset, true);
        let config = combphy_script(phy);
        let apb_off = reset_script(phy.apb_reset, false);
        let phy_off = reset_script(phy.phy_reset, false);
        let wait = seq![plain(Action::DelayMs(RK3588_PCIE_PHY_STABLE_MS))];
        lemma_cru_clocks_guarded(combphy_clocks(phy.id));
        lemma_reset_script_guarded(phy.apb_reset, true);
        lemma_reset_script_guarded(phy.phy_reset, true);
        lemma_combphy_guarded(phy);
        lemma_reset_script_guarded(phy.apb_reset, false);
        lemma_reset_script_guarded(phy.phy_reset, false);
        lemma_guarded_if_unneeding(wait);
        lemma_closed_concat(clocks, apb_on);
        lemma_guarded_concat(clocks, apb_on);
        lemma_closed_concat(clocks + apb_on, phy_on);
        lemma_guarded_concat(clocks + apb_on, phy_on);
        lemma_closed_concat(clocks + apb_on + phy_on, config);
        lemma_guarded_concat(clocks + apb_on + phy_on, config);
        lemma_closed_concat(clocks + apb_on + phy_on + config, apb_off);
        lemma_guarded_concat(clocks + apb_on + phy_on + config, apb_off);
        lemma_closed_concat(clocks + apb_on + phy_on + config + apb_off, phy_off);
        lemma_guarded_concat(clocks + apb_on + phy_on + config + apb_off, phy_off);
        lemma_closed_concat(clocks + apb_on + phy_on + config + apb_off + phy_off, wait);
        lemma_guarded_concat(clocks + apb_on + phy_on + config + apb_off + phy_off, wait);
    }
}

/// What the registers of a PHY hold, by slot and offset.
pub type PhyRegisters = spec_fn(Slot, usize) -> u32;

/// What the registers of a PHY hold after an access. The control registers
/// take a write bit by bit, as its upper half says; the PHY takes it whole.
pub open spec fn after_access(registers: PhyRegisters, action: Action) -> PhyRegisters {
    match action {
        Action::Write { slot, offset, value } => |s: Slot, o: usize|
            if s == slot && o == offset {
                if slot == Slot::Phy {
                    value
                } else {
                    hiword_apply(registers(s, o), value)
                }
            } else {
                registers(s, o)
            },
        Action::Update { slot, offset, mask, value } => |s: Slot, o: usize|
            if s == slot && o == offset {
                masked_update(registers(s, o), mask, value)
            } else {
                registers(s, o)
            },
        _ => registers,
    }
}

/// What the registers of a PHY hold after the first `count` accesses.
pub open spec fn after_accesses(
    registers: PhyRegisters,
    actions: Seq<Action>,
    count: int,
) -> PhyRegisters
    decreases count,
{
    if count <= 0 {
        registers
    } else {
        after_access(after_accesses(registers, actions, count - 1), actions[count - 1])
    }
}

/// What the shared control register holds once the PHY of that number is
/// released from the other interfaces: its bit is clear.
pub open spec fn pipe_released(id: u8, before: u32) -> u32 {
    if id == 1 {
        before & !1u32
    } else if id == 2 {
        before & !2u32
    } else {
        before
    }
}

/// What a register of a PHY holds once the PHY is set up for PCIe.
pub open spec fn pcie_setting(id: u8, slot: Slot, offset: usize, before: u32) -> u32 {
    if slot == Slot::PhyGrf && offset == 0x0 {
        (before & 0xffff_0000) | 0x1000
    } else if slot == Slot::PhyGrf && offset == 0x4 {
        (before & 0xffff_0000) | 0x4000
    } else if slot == Slot::PhyGrf && offset == 0x8 {
        (before & 0xffff_0000) | 0x0101
    } else if slot == Slot::PhyGrf && offset == 0xc {
        (before & 0xffff_0000) | 0x0200
    } else if slot == Slot::PipeGrf && offset == 0x100 {
        pipe_released(id, before)
    } else if slot == Slot::Phy && offset == RK3588_PHYREG33 {
        (before & !0x1cu32) | 0x10
    } else if slot == Slot::Phy && offset == RK3588_PHYREG12 {
        4
    } else if slot == Slot::Phy && offset == RK3588_PHYREG27 {
        0x4c
    } else if slot == Slot::Phy && offset == RK3588_PHYREG11 {
        0xf0
    } else {
        before
    }
}

/// Setting a PHY up for PCIe leaves each of its registers with the setting for
/// PCIe, and no register with another value than that or the one it had.
pub proof fn lemma_combphy_settings(registers: PhyRegisters, id: u8, slot: Slot, offset: usize)
    ensures
        after_accesses(registers, combphy_accesses(id), combphy_accesses(id).len() as int)(
            slot,
            offset,
        ) == pcie_setting(id, slot, offset, registers(slot, offset)),
{
    let before = registers(slot, offset);
    let actions = combphy_accesses(id);
    reveal_with_fuel(after_accesses, 11);
    lemma_grf_values(before);
    if id == 1 || id == 2 {
        assert(actions.len() == 10);
    } else {
        assert(actions.len() == 9);
    }
}

pub(super) proof fn lemma_grf_values(before: u32)
    ensures
        hiword_apply(before, hiword_field(15, 0, 0x1000)) == (before & 0xffff_0000) | 0x1000,
        hiword_apply(before, hiword_field(15, 0, 0x0101)) == (before & 0xffff_0000) | 0x0101,
        hiword_apply(before, hiword_field(15, 0, 0x0200)) == (before & 0xffff_0000) | 0x0200,
        hiword_apply(
            hiword_apply(before, hiword_field(15, 0, 0x0000)),
            hiword_field(14, 13, 0x02),
        ) == (before & 0xffff_0000) | 0x4000,
        hiword_apply(before, hiword_field(0, 0, 0)) == before & !1u32,
        hiword_apply(before, hiword_field(1, 1, 0)) == before & !2u32,
        masked_update(before, 0x1c, 0x10) == (before & !0x1cu32) | 0x10,
{
    assert(hiword_apply(before, hiword_field(15, 0, 0x1000)) == (before & 0xffff_0000) | 0x1000
        && hiword_apply(before, hiword_field(15, 0, 0x0101)) == (before & 0xffff_0000) | 0x0101
        && hiword_apply(before, hiword_field(15, 0, 0x0200)) == (before & 0xffff_0000) | 0x0200
        && hiword_apply(
        hiword_apply(before, hiword_field(15, 0, 0x0000)),
        hiword_field(14, 13, 0x02),
    ) == (before & 0xffff_0000) | 0x4000 && hiword_apply(before, hiword_field(0, 0, 0)) == before
        & !1u32 && hiword_apply(before, hiword_field(1, 1, 0)) == before & !2u32 && masked_update(
        before,
        0x1c,
        0x10,
    ) == (before & !0x1cu32) | 0x10) by (bit_vector);
}

} // verus!
