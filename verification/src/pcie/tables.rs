//! Laws of the tables: which numbers stand for what, entry by entry, and that
//! nothing else is known.
use super::clock::{
    clock_script, clocks_script, cru_clock_script, host_index, named_clock, wanted_clock,
};
use super::gpio::{bank_base, drive_writes, phandle_bank, physical_level, pin_bit, pin_write};
use super::host::{bus_info, config_window_of};
use super::phy::{
    combphy_accesses, combphy_clocks, combphy_script, cru_clocks_script, grf_write,
    phandle_combphy, wanted_phy, Rk3588Combphy,
};
use super::power::{power_domain_script, regulator_gpio, regulator_script};
use super::probe::{default_reset_pin, odd_cells, PcieNode};
use super::reset::{reset_location, reset_script, reset_write, resets_script};
use crate::fdt::{ClockView, PciRange, PciSpace, RegFixed};
use crate::hiword::{bit_of, hiword_apply, lemma_field_bits, lemma_single_bit};
use crate::script::{Action, Instr, OnFailure, Slot, Window};
use vstd::prelude::*;

verus! {

/// The five GPIO banks and where their registers are.
pub proof fn lemma_gpio_banks(bank: u8)
    ensures
        bank == 0 ==> bank_base(bank) == Some(0xfd8a_0000u64),
        bank == 1 ==> bank_base(bank) == Some(0xfec2_0000u64),
        bank == 2 ==> bank_base(bank) == Some(0xfec3_0000u64),
        bank == 3 ==> bank_base(bank) == Some(0xfec4_0000u64),
        bank == 4 ==> bank_base(bank) == Some(0xfec5_0000u64),
        bank > 4 ==> bank_base(bank) is None,
{
}

/// The eleven phandles that stand for a GPIO bank.
pub proof fn lemma_gpio_phandles(phandle: u32)
    ensures
        phandle == 0xf8 || phandle == 0x104 ==> phandle_bank(phandle) == Some(0u8),
        phandle == 0xf9 || phandle == 0x105 ==> phandle_bank(phandle) == Some(1u8),
        phandle == 0xfa || phandle == 0x106 ==> phandle_bank(phandle) == Some(2u8),
        phandle == 0xfb || phandle == 0x107 ==> phandle_bank(phandle) == Some(3u8),
        phandle == 0xfc || phandle == 0x108 || phandle == 0x10e ==> phandle_bank(phandle) == Some(
            4u8,
        ),
        phandle_bank(phandle) is Some ==> 0xf8 <= phandle <= 0xfc || 0x104 <= phandle <= 0x108
            || phandle == 0x10e,
{
}

/// The two hosts whose reset line is known without their node.
pub proof fn lemma_default_reset_pins(apb_base: u64)
    ensures
        apb_base == 0xfe18_0000 ==> (default_reset_pin(apb_base) matches Some(pin) && pin.bank == 3
            && pin.pin == 11 && pin.active_high),
        apb_base == 0xfe19_0000 ==> (default_reset_pin(apb_base) matches Some(pin) && pin.bank == 4
            && pin.pin == 2 && pin.active_high),
        default_reset_pin(apb_base) is Some ==> apb_base == 0xfe18_0000 || apb_base == 0xfe19_0000,
{
}

/// The three regulators: bank, line, polarity and startup time in
/// microseconds.
pub proof fn lemma_regulators(phandle: u32)
    ensures
        phandle == 0x1c2 ==> regulator_gpio(phandle) == Some((0u8, 14u8, true, 5_000u32)),
        phandle == 0x1c6 ==> regulator_gpio(phandle) == Some((0u8, 21u8, true, 50_000u32)),
        phandle == 0x4a4 ==> regulator_gpio(phandle) == Some((4u8, 20u8, false, 50_000u32)),
        regulator_gpio(phandle) is Some ==> phandle == 0x1c2 || phandle == 0x1c6 || phandle
            == 0x4a4,
{
}

/// Every power manager is asked in its turn, for the domain of the host, and
/// the first that obeys is the last that is asked.
pub proof fn lemma_power_managers(devices: usize, i: int)
    ensures
        power_domain_script(devices as int).len() == devices,
        0 <= i < devices ==> power_domain_script(devices as int)[i].action == (Action::PowerOn {
            device: i as usize,
            domain: 34,
        }),
        0 <= i < devices ==> i + 1 + power_domain_script(devices as int)[i].on_success == devices,
        0 <= i < devices ==> power_domain_script(devices as int)[i].on_failure
            == OnFailure::Continue,
{
}

/// The three hosts with clocks of their own, and which number each of their
/// six clocks has; no other name and no other host has one.
pub proof fn lemma_host_clocks(apb_base: u64, name: Option<Seq<char>>)
    ensures
        named_clock(apb_base, name) is Some ==> {
            &&& apb_base == 0xfe15_0000 || apb_base == 0xfe18_0000 || apb_base == 0xfe19_0000
            &&& name == Some("aclk_mst"@) || name == Some("aclk_slv"@) || name == Some("aclk_dbi"@)
                || name == Some("pclk"@) || name == Some("aux"@) || name == Some("pipe"@)
        },
        apb_base == 0xfe15_0000 ==> {
            &&& name == Some("aclk_mst"@) ==> named_clock(apb_base, name) == Some(322usize)
            &&& name == Some("aclk_slv"@) ==> named_clock(apb_base, name) == Some(327usize)
            &&& name == Some("aclk_dbi"@) ==> named_clock(apb_base, name) == Some(317usize)
            &&& name == Some("pclk"@) ==> named_clock(apb_base, name) == Some(332usize)
            &&& name == Some("aux"@) ==> named_clock(apb_base, name) == Some(337usize)
            &&& name == Some("pipe"@) ==> named_clock(apb_base, name) == Some(687usize)
        },
        apb_base == 0xfe18_0000 ==> {
            &&& name == Some("aclk_mst"@) ==> named_clock(apb_base, name) == Some(323usize)
            &&& name == Some("aclk_slv"@) ==> named_clock(apb_base, name) == Some(328usize)
            &&& name == Some("aclk_dbi"@) ==> named_clock(apb_base, name) == Some(318usize)
            &&& name == Some("pclk"@) ==> named_clock(apb_base, name) == Some(333usize)
            &&& name == Some("aux"@) ==> named_clock(apb_base, name) == Some(338usize)
            &&& name == Some("pipe"@) ==> named_clock(apb_base, name) == Some(688usize)
        },
        apb_base == 0xfe19_0000 ==> {
            &&& name == Some("aclk_mst"@) ==> named_clock(apb_base, name) == Some(324usize)
            &&& name == Some("aclk_slv"@) ==> named_clock(apb_base, name) == Some(329usize)
            &&& name == Some("aclk_dbi"@) ==> named_clock(apb_base, name) == Some(319usize)
            &&& name == Some("pclk"@) ==> named_clock(apb_base, name) == Some(334usize)
            &&& name == Some("aux"@) ==> named_clock(apb_base, name) == Some(339usize)
            &&& name == Some("pipe"@) ==> named_clock(apb_base, name) == Some(371usize)
        },
{
    reveal_strlit("aclk_mst");
    reveal_strlit("aclk_slv");
    reveal_strlit("aclk_dbi");
    reveal_strlit("pclk");
    reveal_strlit("aux");
    reveal_strlit("pipe");
    assert("aclk_mst"@[5] != "aclk_slv"@[5]);
    assert("aclk_mst"@[5] != "aclk_dbi"@[5]);
    assert("aclk_slv"@[5] != "aclk_dbi"@[5]);
    assert("pclk"@[1] != "pipe"@[1]);
    assert("aclk_mst"@.len() == 8 && "aclk_slv"@.len() == 8 && "aclk_dbi"@.len() == 8);
    assert("pclk"@.len() == 4 && "aux"@.len() == 3 && "pipe"@.len() == 4);
}

/// The numbers of the hosts.
pub proof fn lemma_host_numbers(apb_base: u64)
    ensures
        apb_base == 0xfe15_0000 ==> host_index(apb_base) == Some(0u8),
        apb_base == 0xfe18_0000 ==> host_index(apb_base) == Some(1u8),
        apb_base == 0xfe19_0000 ==> host_index(apb_base) == Some(2u8),
        host_index(apb_base) is Some ==> apb_base == 0xfe15_0000 || apb_base == 0xfe18_0000
            || apb_base == 0xfe19_0000,
{
}

/// A clock is enabled by the number of its name, where the host has one of that
/// name; else by its first selecting cell, where its provider wants any.
pub proof fn lemma_wanted_clock(apb_base: u64, clock: ClockView)
    ensures
        named_clock(apb_base, clock.name) is Some ==> wanted_clock(apb_base, clock) == named_clock(
            apb_base,
            clock.name,
        ),
        named_clock(apb_base, clock.name) is None && clock.cells > 0 && clock.specifier.len() > 0
            ==> wanted_clock(apb_base, clock) == Some(clock.specifier[0] as usize),
        named_clock(apb_base, clock.name) is None && (clock.cells == 0 || clock.specifier.len() == 0)
            ==> wanted_clock(apb_base, clock) is None,
{
}

/// What enables one clock of a host: its device is acquired, its number is set
/// as the rate of clock 0 there, and the peripheral clocks are enabled whether
/// the rate was taken or not. Without the device, or without a number, nothing
/// is set.
pub proof fn lemma_one_clock(apb_base: u64, clock: ClockView)
    ensures
        wanted_clock(apb_base, clock) matches Some(number) ==> clocks_script(
            apb_base,
            seq![clock],
        ) == seq![
            Instr {
                action: Action::AcquireClock { phandle: clock.phandle },
                on_success: 0,
                on_failure: OnFailure::Skip(2),
            },
            Instr {
                action: Action::SetRate { clock: 0, rate: number as u64 },
                on_success: 0,
                on_failure: OnFailure::Continue,
            },
            Instr {
                action: Action::PeripheralEnable,
                on_success: 0,
                on_failure: OnFailure::Continue,
            },
        ],
        wanted_clock(apb_base, clock) is None ==> clocks_script(apb_base, seq![clock]) == seq![
            Instr {
                action: Action::AcquireClock { phandle: clock.phandle },
                on_success: 0,
                on_failure: OnFailure::Continue,
            },
        ],
{
    let one = seq![clock];
    assert(one.drop_last() =~= seq![]);
    assert(one.last() == clock);
    reveal_with_fuel(clocks_script, 2);
    assert(clocks_script(apb_base, one) =~= clock_script(apb_base, clock));
}

/// The clocks of a host are enabled one after the other, in their order.
pub proof fn lemma_clocks_in_order(apb_base: u64, a: Seq<ClockView>, b: Seq<ClockView>)
    ensures
        clocks_script(apb_base, a + b) == clocks_script(apb_base, a) + clocks_script(apb_base, b),
        clocks_script(apb_base, seq![]).len() == 0,
    decreases b.len(),
{
    if b.len() == 0 {
        assert(a + b =~= a);
        assert(clocks_script(apb_base, a) + clocks_script(apb_base, b) =~= clocks_script(
            apb_base,
            a,
        ));
    } else {
        assert((a + b).drop_last() =~= a + b.drop_last());
        lemma_clocks_in_order(apb_base, a, b.drop_last());
        assert(clocks_script(apb_base, a + b) =~= clocks_script(apb_base, a) + clocks_script(
            apb_base,
            b,
        ));
    }
}

/// What enables one clock of the clock and reset unit: its device, which phandle
/// 2 stands for, is acquired, and the number is set as the rate of clock 0 there.
pub proof fn lemma_unit_clock(clock_id: usize)
    ensures
        cru_clock_script(clock_id) == seq![
            Instr {
                action: Action::AcquireClock { phandle: 2 },
                on_success: 0,
                on_failure: OnFailure::Skip(1),
            },
            Instr {
                action: Action::SetRate { clock: 0, rate: clock_id as u64 },
                on_success: 0,
                on_failure: OnFailure::Continue,
            },
        ],
{
}

/// The three PHYs: where their registers are, and their resets.
pub proof fn lemma_phys(phandle: u32)
    ensures
        phandle == 0x110 ==> (phandle_combphy(phandle) matches Some(phy) && phy.id == 0
            && phy.mmio_base == 0xfee0_0000 && phy.phy_grf_base == 0xfd5b_c000 && phy.pipe_grf_base
            == 0xfd5b_0000 && phy.apb_reset == 0x20005 && phy.phy_reset == 0x4d6),
        phandle == 0x1c5 ==> (phandle_combphy(phandle) matches Some(phy) && phy.id == 1
            && phy.mmio_base == 0xfee1_0000 && phy.phy_grf_base == 0xfd5c_0000 && phy.pipe_grf_base
            == 0xfd5b_0000 && phy.apb_reset == 0x20006 && phy.phy_reset == 0x4d7),
        phandle == 0x71 ==> (phandle_combphy(phandle) matches Some(phy) && phy.id == 2
            && phy.mmio_base == 0xfee2_0000 && phy.phy_grf_base == 0xfd5c_4000 && phy.pipe_grf_base
            == 0xfd5b_0000 && phy.apb_reset == 0x20007 && phy.phy_reset == 0x4d8),
        phandle_combphy(phandle) is Some ==> phandle == 0x110 || phandle == 0x1c5 || phandle
            == 0x71,
{
}

/// The clocks of the PHYs.
pub proof fn lemma_phy_clocks(id: u8)
    ensures
        id == 0 ==> combphy_clocks(id) == seq![374usize, 377, 340, 364, 367],
        id == 1 ==> combphy_clocks(id) == seq![375usize, 377, 341, 365, 368],
        id == 2 ==> combphy_clocks(id) == seq![376usize, 377, 342, 366, 369],
        id > 2 ==> combphy_clocks(id).len() == 0,
{
    if id == 0 {
        assert(combphy_clocks(id) =~= seq![374usize, 377, 340, 364, 367]);
    } else if id == 1 {
        assert(combphy_clocks(id) =~= seq![375usize, 377, 341, 365, 368]);
    } else if id == 2 {
        assert(combphy_clocks(id) =~= seq![376usize, 377, 342, 366, 369]);
    }
}

/// The PHY of a host is the one that the first cell of `phys` stands for, unless
/// a second cell asks for something else than PCIe.
pub proof fn lemma_phy_of_host(phys: Seq<u32>)
    ensures
        phys.len() == 0 ==> wanted_phy(phys) is None,
        phys.len() == 1 ==> wanted_phy(phys) == phandle_combphy(phys[0]),
        phys.len() >= 2 && phys[1] == 2 ==> wanted_phy(phys) == phandle_combphy(phys[0]),
        phys.len() >= 2 && phys[1] != 2 ==> wanted_phy(phys) is None,
{
}

/// The write of a reset: sixteen to a register in the main unit, and three more
/// in the first register of another. It asserts or releases that reset, and
/// changes no other bit of the register.
pub proof fn lemma_reset_writes(reset_id: u32, asserted: bool, before: u32, other: u32)
    requires
        other < 32,
    ensures
        reset_write(reset_id, asserted) is Some <==> reset_id < 0x1_0000 || 0x2_0005 <= reset_id
            <= 0x2_0007,
        reset_id < 0x1_0000 ==> (reset_write(reset_id, asserted) matches Some(write) && {
            &&& write.window.base == 0xfd7c_0000
            &&& write.window.size == 0x5c000
            &&& write.offset == 0xa00 + reset_id / 16 * 4
            &&& bit_of(hiword_apply(before, write.value), other) == if other == reset_id % 16 {
                asserted
            } else {
                bit_of(before, other)
            }
        }),
        0x2_0005 <= reset_id <= 0x2_0007 ==> (reset_write(reset_id, asserted) matches Some(write)
            && {
            &&& write.window.base == 0xfd7c_8000
            &&& write.window.size == 0x5c000
            &&& write.offset == 0xa00
            &&& bit_of(hiword_apply(before, write.value), other) == if other == reset_id - 0x2_0000 {
                asserted
            } else {
                bit_of(before, other)
            }
        }),
{
    if let Some((base, bank, bit)) = reset_location(reset_id) {
        lemma_single_bit(before, bit, asserted);
    }
}

/// The number of a reset is the second cell of each pair.
pub proof fn lemma_reset_numbers(cells: Seq<u32>, i: int)
    ensures
        odd_cells(cells).len() == cells.len() / 2,
        0 <= i < cells.len() && i % 2 == 1 ==> odd_cells(cells)[i / 2] == cells[i],
{
}

/// The configuration window is the third register range, a megabyte where that
/// does not say its size.
pub proof fn lemma_config_register(regs: Seq<RegFixed>, ranges: Seq<PciRange>)
    requires
        regs.len() >= 3,
    ensures
        regs[2].size matches Some(size) ==> config_window_of(regs, ranges) == Some(
            (regs[2].address, size),
        ),
        regs[2].size is None ==> config_window_of(regs, ranges) == Some(
            (regs[2].address, 0x10_0000u64),
        ),
{
}

/// Without a third register range, the configuration window is the first range
/// of the host that is 32-bit memory, a megabyte large and at the same address
/// on both sides: range `i`, where no earlier one is; none where `i` is past the
/// last.
pub proof fn lemma_config_range(regs: Seq<RegFixed>, ranges: Seq<PciRange>, i: int)
    requires
        regs.len() < 3,
        0 <= i <= ranges.len(),
        forall|k: int| 0 <= k < i ==> {
            let range = #[trigger] ranges[k];
            range.space != PciSpace::Memory32 || range.size != 0x10_0000 || range.cpu_address
                != range.bus_address
        },
        i < ranges.len() ==> ranges[i].space == PciSpace::Memory32 && ranges[i].size == 0x10_0000
            && ranges[i].cpu_address == ranges[i].bus_address,
    ensures
        config_window_of(regs, ranges) == if i < ranges.len() {
            Some((ranges[i].cpu_address, 0x10_0000u64))
        } else {
            None
        },
{
    lemma_config_range_from(ranges, 0, i);
}

proof fn lemma_config_range_from(ranges: Seq<PciRange>, from: int, i: int)
    requires
        0 <= from <= i <= ranges.len(),
        forall|k: int| 0 <= k < i ==> {
            let range = #[trigger] ranges[k];
            range.space != PciSpace::Memory32 || range.size != 0x10_0000 || range.cpu_address
                != range.bus_address
        },
        i < ranges.len() ==> ranges[i].space == PciSpace::Memory32 && ranges[i].size == 0x10_0000
            && ranges[i].cpu_address == ranges[i].bus_address,
    ensures
        super::host::first_config(ranges, from) == if i < ranges.len() {
            Some((ranges[i].cpu_address, 0x10_0000u64))
        } else {
            None
        },
    decreases i - from,
{
    if from < i {
        assert(!super::host::can_be_config(ranges[from]));
        lemma_config_range_from(ranges, from + 1, i);
    }
}

/// The first bus is cut to 255, and the logical buses go to the length of the
/// range, which is cut to between 1 and 255; without a range there are all.
pub proof fn lemma_buses(start: u32, end: u32)
    ensures
        start <= 255 ==> bus_info(Some((start, end))).0 == start,
        start > 255 ==> bus_info(Some((start, end))).0 == 255,
        end <= start ==> bus_info(Some((start, end))).1 == 1,
        start < end <= start + 255 ==> bus_info(Some((start, end))).1 == end - start,
        end > start + 255 ==> bus_info(Some((start, end))).1 == 255,
        bus_info(None) == (0u8, 255u8),
{
}

/// What one reset takes: its unit is mapped, and its write made. Where the unit
/// cannot be mapped, the write is left out. Nothing is done for a reset that is
/// not known.
pub proof fn lemma_one_reset(reset_id: u32, asserted: bool)
    ensures
        reset_write(reset_id, asserted) matches Some(write) ==> reset_script(reset_id, asserted)
            == seq![
            Instr {
                action: Action::MapWindow { slot: Slot::Cru, window: write.window },
                on_success: 0,
                on_failure: OnFailure::Skip(1),
            },
            Instr {
                action: Action::Write {
                    slot: Slot::Cru,
                    offset: write.offset,
                    value: write.value,
                },
                on_success: 0,
                on_failure: OnFailure::Continue,
            },
        ],
        reset_write(reset_id, asserted) is None ==> reset_script(reset_id, asserted).len() == 0,
        resets_script(seq![reset_id], asserted) == reset_script(reset_id, asserted),
{
    let one = seq![reset_id];
    assert(one.drop_last() =~= seq![]);
    assert(one.last() == reset_id);
    reveal_with_fuel(resets_script, 2);
    assert(resets_script(one, asserted) =~= reset_script(reset_id, asserted));
}

/// Resets are asserted and released one after the other, in their order.
pub proof fn lemma_resets_in_order(a: Seq<u32>, b: Seq<u32>, asserted: bool)
    ensures
        resets_script(a + b, asserted) == resets_script(a, asserted) + resets_script(b, asserted),
        resets_script(seq![], asserted).len() == 0,
    decreases b.len(),
{
    if b.len() == 0 {
        assert(a + b =~= a);
        assert(resets_script(a, asserted) + resets_script(b, asserted) =~= resets_script(
            a,
            asserted,
        ));
    } else {
        assert((a + b).drop_last() =~= a + b.drop_last());
        lemma_resets_in_order(a, b.drop_last(), asserted);
        assert(resets_script(a + b, asserted) =~= resets_script(a, asserted) + resets_script(
            b,
            asserted,
        ));
    }
}

/// The writes that drive a line: its level, and then its direction. The lines
/// below 16 have theirs in the registers at 0 and 8, the others at 4 and 12, and
/// each write changes the bit of the line alone.
pub proof fn lemma_line_writes(pin: u8, level: bool, before: u32, other: u32)
    requires
        pin < 32,
        other < 32,
    ensures
        drive_writes(pin, level).len() == 2,
        drive_writes(pin, level)[0].offset == if pin < 16 {
            0int
        } else {
            4
        },
        drive_writes(pin, level)[1].offset == if pin < 16 {
            8int
        } else {
            12
        },
        bit_of(hiword_apply(before, drive_writes(pin, level)[0].value), other) == if other == (pin
            as int) % 16 {
            level
        } else {
            bit_of(before, other)
        },
        bit_of(hiword_apply(before, drive_writes(pin, level)[1].value), other) == (other == (pin
            as int) % 16 || bit_of(before, other)),
        physical_level(true, level) == level,
        physical_level(false, level) == !level,
{
    lemma_single_bit(before, pin_bit(pin), level);
    lemma_single_bit(before, pin_bit(pin), true);
}

/// What switches a regulator on: its bank is mapped, its line driven, and a wait
/// follows. Where the bank cannot be mapped, none of this is done; nor where
/// there is no such bank.
pub proof fn lemma_regulator_steps(bank: u8, pin: u8, active_high: bool, startup_us: u32, i: int)
    ensures
        ({
            let script = regulator_script(bank, pin, active_high, startup_us);
            &&& bank > 4 ==> script.len() == 0
            &&& bank <= 4 ==> {
                &&& script.len() == 4
                &&& script[0].action matches Action::MapWindow { slot, window } && slot
                    == Slot::Gpio && window.size == 0x110
                &&& script[1].action is Write && script[2].action is Write
                &&& script[3].action == if startup_us > 0 {
                    Action::DelayUs(startup_us as u64)
                } else {
                    Action::DelayMs(10)
                }
                &&& script[0].on_failure == OnFailure::Skip(3)
                &&& 0 <= i < 4 ==> script[i].on_success == 0
                &&& 1 <= i < 4 ==> script[i].on_failure == OnFailure::Continue
            }
        }),
{
}

/// Setting a PHY up maps its three windows, without any of which the run ends;
/// after that it writes, and goes on whatever comes of a write.
pub proof fn lemma_phy_steps(phy: Rk3588Combphy, i: int)
    ensures
        ({
            let script = combphy_script(phy);
            &&& script.len() >= 3
            &&& script[0].action == (Action::MapWindow {
                slot: Slot::PhyGrf,
                window: Window { base: phy.phy_grf_base, size: 0x100 },
            })
            &&& script[1].action == (Action::MapWindow {
                slot: Slot::PipeGrf,
                window: Window { base: phy.pipe_grf_base, size: 0x1000 },
            })
            &&& script[2].action == (Action::MapWindow {
                slot: Slot::Phy,
                window: Window { base: phy.mmio_base, size: 0x100 },
            })
            &&& 0 <= i < script.len() ==> script[i].on_success == 0 && script[i].on_failure == if i
                < 3 {
                OnFailure::Abort
            } else {
                OnFailure::Continue
            }
        }),
{
}

/// The write of a field of a control register goes to that register, carries the
/// value from the first bit of the field on, and enables the bits of the field.
pub proof fn lemma_field_write(
    slot: Slot,
    offset: usize,
    bitend: u32,
    bitstart: u32,
    value: u32,
    bit: u32,
)
    requires
        bitstart <= bitend < 16,
        bit < 32,
    ensures
        grf_write(slot, offset, bitend, bitstart, value) matches Action::Write {
            slot: to,
            offset: at,
            value: word,
        } && to == slot && at == offset && bit_of(word, bit) == ((bit >= bitstart && bit_of(
            value,
            (bit - bitstart) as u32,
        )) || bitstart <= bit - 16 <= bitend),
{
    lemma_field_bits(bitend, bitstart, value, bit);
}

/// Where the resets are: sixteen to a register of the main unit, by their
/// numbers, and three in the first register of the unit behind it.
pub proof fn lemma_reset_places(reset_id: u32)
    ensures
        reset_id < 0x1_0000 ==> reset_location(reset_id) == Some(
            (0xfd7c_0000u64, reset_id / 16, reset_id % 16),
        ),
        0x2_0005 <= reset_id <= 0x2_0007 ==> (reset_location(reset_id) matches Some(
            (base, register, bit),
        ) && base == 0xfd7c_8000 && register == 0 && bit == reset_id - 0x2_0000),
        reset_location(reset_id) is Some ==> reset_id < 0x1_0000 || 0x2_0005 <= reset_id
            <= 0x2_0007,
{
}

/// The write to one of two registers, the first for the lines below 16 and the
/// second for the others, changes the bit of the line alone.
pub proof fn lemma_pin_write(
    low_offset: usize,
    high_offset: usize,
    pin: u8,
    level: bool,
    before: u32,
    other: u32,
)
    requires
        pin < 32,
        other < 32,
    ensures
        pin < 16 ==> pin_write(low_offset, high_offset, pin, level).offset == low_offset,
        pin >= 16 ==> pin_write(low_offset, high_offset, pin, level).offset == high_offset,
        bit_of(hiword_apply(before, pin_write(low_offset, high_offset, pin, level).value), other)
            == if other == (pin as int) % 16 {
            level
        } else {
            bit_of(before, other)
        },
{
    lemma_single_bit(before, pin_bit(pin), level);
}

/// The clocks of the clock and reset unit are enabled one after the other, in
/// their order.
pub proof fn lemma_unit_clocks_in_order(a: Seq<usize>, b: Seq<usize>)
    ensures
        cru_clocks_script(a + b) == cru_clocks_script(a) + cru_clocks_script(b),
        cru_clocks_script(seq![]).len() == 0,
    decreases b.len(),
{
    if b.len() == 0 {
        assert(a + b =~= a);
        assert(cru_clocks_script(a) + cru_clocks_script(b) =~= cru_clocks_script(a));
    } else {
        assert((a + b).drop_last() =~= a + b.drop_last());
        lemma_unit_clocks_in_order(a, b.drop_last());
        assert(cru_clocks_script(a + b) =~= cru_clocks_script(a) + cru_clocks_script(b));
    }
}

/// What a [`PcieNode`] says is what stands in it.
pub proof fn lemma_node_says(node: PcieNode)
    ensures
        node@.regs == node.regs@,
        node@.ranges == node.ranges@,
        node@.bus_range == node.bus_range,
        node.reset_gpios matches Some(cells) ==> node@.reset_gpios == Some(cells@),
        node.reset_gpios is None ==> node@.reset_gpios is None,
        node@.supply == node.supply,
        node@.resets == node.resets@,
        node@.clocks.len() == node.clocks@.len(),
        forall|i: int| 0 <= i < node.clocks@.len() ==> #[trigger] node@.clocks[i] == node.clocks@[i]@,
        node@.phys == node.phys@,
{
}

/// The register that an action accesses.
pub open spec fn register_of(action: Action) -> (Slot, int) {
    match action {
        Action::Write { slot, offset, .. } => (slot, offset as int),
        Action::Update { slot, offset, .. } => (slot, offset as int),
        _ => (Slot::Perst, -1),
    }
}

/// In which order the registers of a PHY are accessed: its control registers, the
/// one that it shares with the other PHYs, its mode once more, and then the PHY
/// itself.
pub proof fn lemma_phy_order(phy: Rk3588Combphy)
    ensures
        ({
            let script = combphy_script(phy);
            let shared = if phy.id == 1 || phy.id == 2 {
                1int
            } else {
                0
            };
            &&& script.len() == 12 + shared
            &&& register_of(script[3].action) == (Slot::PhyGrf, 0x0int)
            &&& register_of(script[4].action) == (Slot::PhyGrf, 0x4int)
            &&& register_of(script[5].action) == (Slot::PhyGrf, 0x8int)
            &&& register_of(script[6].action) == (Slot::PhyGrf, 0xcint)
            &&& shared == 1 ==> register_of(script[7].action) == (Slot::PipeGrf, 0x100int)
            &&& register_of(script[7 + shared].action) == (Slot::PhyGrf, 0x4int)
            &&& register_of(script[8 + shared].action) == (Slot::Phy, 0x80int)
            &&& register_of(script[9 + shared].action) == (Slot::Phy, 0x2cint)
            &&& register_of(script[10 + shared].action) == (Slot::Phy, 0x6cint)
            &&& register_of(script[11 + shared].action) == (Slot::Phy, 0x28int)
        }),
{
    let accesses = combphy_accesses(phy.id);
    let script = combphy_script(phy);
    assert forall|i: int| #![trigger script[i]] 3 <= i < script.len() implies script[i].action
        == accesses[i - 3] by {}
}

} // verus!
