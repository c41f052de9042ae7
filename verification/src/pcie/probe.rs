//! Bringing a PCIe host up, from its node of the device tree to its
//! announcement.
use super::clock::{clocks_script, enable_pcie_clocks};
use super::error::ProbeError;
use super::gpio::{
    bank_base, phandle_bank, rk3588_gpio_bank_from_phandle, Rk3588GpioReset, RK3588_GPIO_SIZE,
};
use super::host::{
    bar_script, bus_info, bus_range_info, config_window, config_window_of, outbound_script,
    program_memory_windows, set_bar_ranges,
};
use super::phy::{phy_script, prepare_pcie_phy};
use super::power::{
    enable_fixed_regulator, enable_pcie_power_domain, power_domain_script, supply_script,
};
use super::reset::{assert_resets, deassert_resets, resets_script};
use super::start::{bank_of_phandle, lemma_reset_lines, lemma_started_once};
use crate::fdt::{
    bridge, bus_range_of, cells_or_none, clock_views, clocks, first_cell_of, is_decodable,
    node_clocks, node_is_linked, node_is_pci, node_properties, node_ranges, node_regs, phandle_array,
    property_cells, property_cells_of, ranges_or_none, registers, single_phandle_property, Clock,
    ClockView, PciRange, RegFixed,
};
use crate::script::{
    plain, plain_instr, required, required_instr, Action, HostConfig, IatuMode, Instr, Slot, Window,
};
use vstd::prelude::*;

verus! {

/// The reset line of a host's slot.
#[derive(Clone, Copy, Debug, PartialEq, Eq)]
pub struct Rk3588ResetPin {
    pub bank: u8,
    pub pin: u8,
    pub active_high: bool,
}

/// The reset line that a host has where its node describes none.
pub open spec fn default_reset_pin(apb_base: u64) -> Option<Rk3588ResetPin> {
    if apb_base == 0xfe18_0000 {
        Some(Rk3588ResetPin { bank: 3, pin: 11, active_high: true })
    } else if apb_base == 0xfe19_0000 {
        Some(Rk3588ResetPin { bank: 4, pin: 2, active_high: true })
    } else {
        None
    }
}

/// The reset line that a host has where its node describes none.
pub fn rk3588_pcie_reset_pin(apb_base: u64) -> (pin: Option<Rk3588ResetPin>)
    ensures
        pin == default_reset_pin(apb_base),
{
    match apb_base {
        0xfe18_0000 => Some(Rk3588ResetPin { bank: 3, pin: 11, active_high: true }),
        0xfe19_0000 => Some(Rk3588ResetPin { bank: 4, pin: 2, active_high: true }),
        _ => None,
    }
}

/// The pin that the cells of `reset-gpios` name, and whether it is active
/// high: the second cell, where it is a pin number, and the lowest bit of the
/// third.
pub open spec fn gpio_line(cells: Option<Seq<u32>>) -> Option<(u8, bool)> {
    match cells {
        Some(list) if list.len() >= 2 && list[1] <= 255 => Some(
            (list[1] as u8, list.len() < 3 || list[2] % 2 == 0),
        ),
        _ => None,
    }
}

/// The bank that the cells of `reset-gpios` name by their first.
pub open spec fn gpio_bank(cells: Option<Seq<u32>>) -> Option<u8> {
    match cells {
        Some(list) if list.len() >= 1 => phandle_bank(list[0]),
        _ => None,
    }
}

/// The cells that a property was read as.
pub open spec fn cells_view(cells: Option<Vec<u32>>) -> Option<Seq<u32>> {
    match cells {
        Some(list) => Some(list@),
        None => None,
    }
}

/// The pin that the cells of `reset-gpios` name, and whether it is active
/// high.
pub fn reset_gpio_cells(cells: &Option<Vec<u32>>) -> (line: Option<(u8, bool)>)
    ensures
        line == gpio_line(cells_view(*cells)),
{
    match cells {
        Some(list) => {
            if list.len() < 2 || list[1] > 255 {
                return None;
            }
            let flags: u32 = if list.len() >= 3 {
                list[2]
            } else {
                0
            };
            assert(flags & 1 == flags % 2) by (bit_vector);
            let active_low = flags & 1 != 0;
            Some((list[1] as u8, !active_low))
        },
        None => None,
    }
}

/// The bank that the cells of `reset-gpios` name.
pub fn reset_gpio_bank(cells: &Option<Vec<u32>>) -> (bank: Option<u8>)
    ensures
        bank == gpio_bank(cells_view(*cells)),
{
    match cells {
        Some(list) => {
            if list.len() < 1 {
                return None;
            }
            rk3588_gpio_bank_from_phandle(list[0])
        },
        None => None,
    }
}

/// The reset line of a host's slot: the line that its node describes, or else
/// the one that the host has; the bank likewise. None where either is not
/// known, or the bank does not exist.
pub open spec fn reset_line(cells: Option<Seq<u32>>, apb_base: u64) -> Option<Rk3588GpioReset> {
    let default = default_reset_pin(apb_base);
    let line = match gpio_line(cells) {
        Some(found) => Some(found),
        None => match default {
            Some(pin) => Some((pin.pin, pin.active_high)),
            None => None,
        },
    };
    let bank = match gpio_bank(cells) {
        Some(found) => Some(found),
        None => match default {
            Some(pin) => Some(pin.bank),
            None => None,
        },
    };
    match (line, bank) {
        (Some((pin, active_high)), Some(number)) => match bank_base(number) {
            Some(base) => Some(Rk3588GpioReset { pin, active_high, base }),
            None => None,
        },
        _ => None,
    }
}

/// The reset line of a host's slot, by the cells of its property
/// `reset-gpios`.
pub fn pcie_reset_gpio(cells: &Option<Vec<u32>>, apb_base: u64) -> (reset: Option<Rk3588GpioReset>)
    ensures
        reset == reset_line(cells_view(*cells), apb_base),
{
    let default = rk3588_pcie_reset_pin(apb_base);
    let (pin, active_high) = match reset_gpio_cells(cells) {
        Some(line) => line,
        None => match default {
            Some(pin) => (pin.pin, pin.active_high),
            None => return None,
        },
    };
    let bank: u8 = match reset_gpio_bank(cells) {
        Some(bank) => bank,
        None => match default {
            Some(pin) => pin.bank,
            None => return None,
        },
    };
    match Rk3588GpioReset::map(apb_base, bank, pin, active_high) {
        Ok(reset) => Some(reset),
        Err(_) => None,
    }
}

/// Every second cell, from the second on.
pub open spec fn odd_cells(cells: Seq<u32>) -> Seq<u32> {
    Seq::new(cells.len() / 2, |i: int| cells[2 * i + 1])
}

/// The numbers of the resets in the cells of `resets`, which are pairs of a
/// provider and a number.
pub fn reset_numbers(cells: &[u32]) -> (numbers: Vec<u32>)
    ensures
        numbers@ == odd_cells(cells@),
{
    let mut numbers: Vec<u32> = Vec::new();
    let count: usize = cells.len() / 2;
    let mut i: usize = 0;
    while i < count
        invariant
            i <= count,
            count == cells.len() / 2,
            numbers@ == odd_cells(cells@).take(i as int),
        decreases count - i,
    {
        numbers.push(cells[2 * i + 1]);
        i = i + 1;
        assert(numbers@ =~= odd_cells(cells@).take(i as int));
    }
    assert(odd_cells(cells@).take(i as int) =~= odd_cells(cells@));
    numbers
}

/// The numbers of the resets that a node refers to.
pub fn reset_ids(node: &fdt_edit::NodeType<'_>) -> (numbers: Vec<u32>)
    ensures
        numbers@ == odd_cells(
            cells_or_none(property_cells_of(node_properties(*node), "resets"@)),
        ),
{
    let cells = phandle_array(node, "resets");
    reset_numbers(&cells)
}

/// What the driver reads in the node of a host.
#[derive(Debug, PartialEq, Eq)]
pub struct PcieNode {
    /// Its register ranges.
    pub regs: Vec<RegFixed>,
    /// Its address ranges.
    pub ranges: Vec<PciRange>,
    /// The cells of `bus-range`.
    pub bus_range: Option<(u32, u32)>,
    /// The cells of `reset-gpios`.
    pub reset_gpios: Option<Vec<u32>>,
    /// The regulator that `vpcie3v3-supply` refers to.
    pub supply: Option<u32>,
    /// The numbers of its resets.
    pub resets: Vec<u32>,
    /// Its clocks.
    pub clocks: Vec<Clock>,
    /// The cells of `phys`.
    pub phys: Vec<u32>,
}

/// What a [`PcieNode`] says.
pub struct PcieNodeView {
    pub regs: Seq<RegFixed>,
    pub ranges: Seq<PciRange>,
    pub bus_range: Option<(u32, u32)>,
    pub reset_gpios: Option<Seq<u32>>,
    pub supply: Option<u32>,
    pub resets: Seq<u32>,
    pub clocks: Seq<ClockView>,
    pub phys: Seq<u32>,
}

impl View for PcieNode {
    type V = PcieNodeView;

    open spec fn view(&self) -> PcieNodeView {
        PcieNodeView {
            regs: self.regs@,
            ranges: self.ranges@,
            bus_range: self.bus_range,
            reset_gpios: cells_view(self.reset_gpios),
            supply: self.supply,
            resets: self.resets@,
            clocks: clock_views(self.clocks@),
            phys: self.phys@,
        }
    }
}

/// What the driver reads in a node of the device tree.
pub open spec fn node_view(node: fdt_edit::NodeType<'_>, regs: Seq<RegFixed>) -> PcieNodeView {
    let properties = node_properties(node);
    PcieNodeView {
        regs,
        ranges: ranges_or_none(node_ranges(node)),
        bus_range: bus_range_of(properties),
        reset_gpios: property_cells_of(properties, "reset-gpios"@),
        supply: first_cell_of(property_cells_of(properties, "vpcie3v3-supply"@)),
        resets: odd_cells(cells_or_none(property_cells_of(properties, "resets"@))),
        clocks: node_clocks(node),
        phys: cells_or_none(property_cells_of(properties, "phys"@)),
    }
}

impl PcieNode {
    /// Reads a node, whose register ranges are given. Refuses a node that is no
    /// PCI bridge.
    pub fn read(node: &fdt_edit::NodeType<'_>, regs: Vec<RegFixed>) -> (read: Result<
        PcieNode,
        ProbeError,
    >)
        requires
            node_is_linked(*node),
        ensures
            match read {
                Ok(found) => node_is_pci(*node) && found@ == node_view(*node, regs@),
                Err(error) => !node_is_pci(*node) && error == ProbeError::NotMatch,
            },
    {
        let found = match bridge(node) {
            Some(found) => found,
            None => return Err(ProbeError::NotMatch),
        };
        let read = PcieNode {
            regs,
            ranges: found.ranges,
            bus_range: found.bus_range,
            reset_gpios: property_cells(node, "reset-gpios"),
            supply: single_phandle_property(node, "vpcie3v3-supply"),
            resets: reset_ids(node),
            clocks: clocks(node),
            phys: phandle_array(node, "phys"),
        };
        Ok(read)
    }
}

/// The script that maps the bank of the reset line. Where it cannot be mapped,
/// the host comes up without.
pub open spec fn perst_script(reset: Option<Rk3588GpioReset>) -> Seq<Instr> {
    match reset {
        Some(line) => seq![
            plain(
                Action::MapWindow {
                    slot: Slot::Perst,
                    window: Window { base: line.base, size: RK3588_GPIO_SIZE },
                },
            ),
        ],
        None => seq![],
    }
}

/// The script that has to run before the registers of the host answer: power,
/// resets asserted, clocks, PHY, resets released.
pub open spec fn bring_up_script(node: PcieNodeView, apb_base: u64, devices: int) -> Seq<Instr> {
    power_domain_script(devices) + supply_script(node.supply) + resets_script(node.resets, true)
        + clocks_script(apb_base, node.clocks) + phy_script(node.phys) + resets_script(
        node.resets,
        false,
    )
}

/// The script that has to run before the registers of the host answer, with
/// that many power managers to ask.
pub fn rk3588_pcie_pre_dbi_bring_up(node: &PcieNode, apb_base: u64, devices: usize) -> (script: Vec<
    Instr,
>)
    ensures
        script@ == bring_up_script(node@, apb_base, devices as int),
{
    let mut script = enable_pcie_power_domain(devices);
    let mut part = enable_fixed_regulator(node.supply);
    script.append(&mut part);
    let mut part = assert_resets(&node.resets);
    script.append(&mut part);
    let mut part = enable_pcie_clocks(apb_base, &node.clocks);
    script.append(&mut part);
    let mut part = prepare_pcie_phy(&node.phys, apb_base);
    script.append(&mut part);
    let mut part = deassert_resets(&node.resets);
    script.append(&mut part);
    script
}

/// The size of a register range, or what it is taken to be.
pub open spec fn size_or(size: Option<u64>, default: u64) -> usize {
    match size {
        Some(given) => given as usize,
        None => default as usize,
    }
}

/// What the host is made with.
pub open spec fn host_config(node: PcieNodeView, cfg: (u64, u64)) -> HostConfig {
    HostConfig {
        apb_phys: node.regs[0].address,
        cfg_phys: cfg.0,
        cfg_size: cfg.1 as usize,
        bus_base: bus_info(node.bus_range).0,
        logical_bus_end: bus_info(node.bus_range).1,
        iatu_mode: IatuMode::Unroll,
    }
}

/// The script that maps the windows of the host and starts it. Where one of
/// these fails, the probe fails.
pub open spec fn start_script(
    node: PcieNodeView,
    cfg: (u64, u64),
    reset: Option<Rk3588GpioReset>,
) -> Seq<Instr> {
    seq![
        required(
            Action::MapWindow {
                slot: Slot::Apb,
                window: Window {
                    base: node.regs[0].address,
                    size: size_or(node.regs[0].size, 0x1_0000),
                },
            },
        ),
        required(
            Action::MapWindow {
                slot: Slot::Dbi,
                window: Window {
                    base: node.regs[1].address,
                    size: size_or(node.regs[1].size, 0x40_0000),
                },
            },
        ),
        required(
            Action::MapWindow {
                slot: Slot::Cfg,
                window: Window { base: cfg.0, size: cfg.1 as usize },
            },
        ),
        required(Action::StartHost { config: host_config(node, cfg), perst: reset }),
    ]
}

/// The script that follows the start of the host.
pub open spec fn announce_script(node: PcieNodeView, cfg: (u64, u64)) -> Seq<Instr> {
    outbound_script(node.ranges, cfg.0, cfg.1) + seq![
        plain(Action::UnmaskLegacyIntx),
        plain(Action::RegisterLegacyIrq { logical_bus_end: bus_info(node.bus_range).1 }),
    ] + bar_script(node.ranges, cfg.0, cfg.1) + seq![plain(Action::RegisterController)]
}

/// The script that brings a host up and announces it.
pub open spec fn host_script(node: PcieNodeView, cfg: (u64, u64), devices: int) -> Seq<Instr> {
    let apb_base = node.regs[0].address;
    let reset = reset_line(node.reset_gpios, apb_base);
    perst_script(reset) + bring_up_script(node, apb_base, devices) + start_script(node, cfg, reset)
        + announce_script(node, cfg)
}

/// The script that brings up the host of a node, or why there is none.
pub open spec fn probe_script(node: PcieNodeView, devices: int) -> Result<Seq<Instr>, ProbeError> {
    if node.regs.len() == 0 {
        Err(ProbeError::NoApbRegister)
    } else if node.regs.len() == 1 {
        Err(ProbeError::NoDbiRegister)
    } else {
        match config_window_of(node.regs, node.ranges) {
            Some(cfg) => Ok(host_script(node, cfg, devices)),
            None => Err(ProbeError::NoConfigWindow),
        }
    }
}

fn size_or_default(size: Option<u64>, default: u64) -> (bytes: usize)
    ensures
        bytes == size_or(size, default),
{
    match size {
        Some(given) => given as usize,
        None => default as usize,
    }
}

/// Adds the script that maps the windows of the host and starts it.
fn push_start(
    script: &mut Vec<Instr>,
    node: &PcieNode,
    cfg_phys: u64,
    cfg_size: u64,
    reset: Option<Rk3588GpioReset>,
)
    requires
        node.regs.len() >= 2,
    ensures
        final(script)@ == old(script)@ + start_script(node@, (cfg_phys, cfg_size), reset),
{
    let bus_range = match node.bus_range {
        Some((start, end)) => Some(start..end),
        None => None,
    };
    let (bus_base, logical_bus_end) = bus_range_info(bus_range);
    let apb = node.regs[0];
    let dbi = node.regs[1];
    script.push(
        required_instr(
            Action::MapWindow {
                slot: Slot::Apb,
                window: Window { base: apb.address, size: size_or_default(apb.size, 0x10000) },
            },
        ),
    );
    script.push(
        required_instr(
            Action::MapWindow {
                slot: Slot::Dbi,
                window: Window { base: dbi.address, size: size_or_default(dbi.size, 0x400000) },
            },
        ),
    );
    script.push(
        required_instr(
            Action::MapWindow {
                slot: Slot::Cfg,
                window: Window { base: cfg_phys, size: cfg_size as usize },
            },
        ),
    );
    script.push(
        required_instr(
            Action::StartHost {
                config: HostConfig {
                    apb_phys: apb.address,
                    cfg_phys,
                    cfg_size: cfg_size as usize,
                    bus_base,
                    logical_bus_end,
                    iatu_mode: IatuMode::Unroll,
                },
                perst: reset,
            },
        ),
    );
    assert(script@ =~= old(script)@ + start_script(node@, (cfg_phys, cfg_size), reset));
}

/// Adds the script that follows the start of the host.
fn push_announce(script: &mut Vec<Instr>, node: &PcieNode, cfg_phys: u64, cfg_size: u64)
    ensures
        final(script)@ == old(script)@ + announce_script(node@, (cfg_phys, cfg_size)),
{
    let bus_range = match node.bus_range {
        Some((start, end)) => Some(start..end),
        None => None,
    };
    let (_, logical_bus_end) = bus_range_info(bus_range);
    let mut part = program_memory_windows(&node.ranges, cfg_phys, cfg_size);
    script.append(&mut part);
    script.push(plain_instr(Action::UnmaskLegacyIntx));
    script.push(plain_instr(Action::RegisterLegacyIrq { logical_bus_end }));
    let mut part = set_bar_ranges(&node.ranges, cfg_phys, cfg_size);
    script.append(&mut part);
    script.push(plain_instr(Action::RegisterController));
    assert(script@ =~= old(script)@ + announce_script(node@, (cfg_phys, cfg_size)));
}

/// The script that brings up the host of a node and announces it, with that
/// many power managers to ask; or why the node makes no host.
pub fn plan_host(node: &PcieNode, devices: usize) -> (script: Result<Vec<Instr>, ProbeError>)
    ensures
        match script {
            Ok(list) => probe_script(node@, devices as int) == Ok::<Seq<Instr>, ProbeError>(list@),
            Err(error) => probe_script(node@, devices as int) == Err::<Seq<Instr>, ProbeError>(
                error,
            ),
        },
        script matches Ok(list) ==> (node.reset_gpios matches Some(cells) ==> cells@.len() >= 2
            && cells@[1] <= 255 && bank_of_phandle(cells@[0]) is Some ==> exists|s: int|
            0 <= s < list@.len() && ((#[trigger] list@[s]).action matches Action::StartHost {
                perst: Some(line),
                ..
            } && line.pin == cells@[1] && line.active_high == (cells@.len() == 2 || cells@[2] % 2
                == 0) && Some(line.base) == bank_of_phandle(cells@[0]))),
{
    if node.regs.len() == 0 {
        return Err(ProbeError::NoApbRegister);
    }
    if node.regs.len() == 1 {
        return Err(ProbeError::NoDbiRegister);
    }
    let (cfg_phys, cfg_size) = match config_window(&node.regs, &node.ranges) {
        Ok(window) => window,
        Err(error) => return Err(error),
    };
    let apb_base: u64 = node.regs[0].address;
    let reset = pcie_reset_gpio(&node.reset_gpios, apb_base);
    let mut script: Vec<Instr> = Vec::new();
    if let Some(line) = reset {
        script.push(
            plain_instr(
                Action::MapWindow {
                    slot: Slot::Perst,
                    window: Window { base: line.base, size: RK3588_GPIO_SIZE },
                },
            ),
        );
    }
    assert(script@ =~= perst_script(reset));
    let mut part = rk3588_pcie_pre_dbi_bring_up(node, apb_base, devices);
    script.append(&mut part);
    push_start(&mut script, node, cfg_phys, cfg_size, reset);
    push_announce(&mut script, node, cfg_phys, cfg_size);
    assert(script@ == host_script(node@, (cfg_phys, cfg_size), devices as int));
    proof {
        lemma_started_once(node@, devices);
        let s = choose|s: int| 0 <= s < script@.len() && (#[trigger] script@[s]).action is StartHost;
        lemma_reset_lines(node@, devices, s);
    }
    Ok(script)
}

/// What comes of a node of the device tree: the script that brings its host up,
/// or why it makes none.
pub open spec fn node_script(node: fdt_edit::NodeType<'_>, devices: int) -> Result<
    Seq<Instr>,
    ProbeError,
> {
    if node_is_pci(node) {
        probe_script(node_view(node, node_regs(node)), devices)
    } else {
        Err(ProbeError::NotMatch)
    }
}

/// The script that brings up the host of `node` and announces it, with that
/// many power managers to ask; or why the node makes no host. None for a bridge
/// whose registers cannot be decoded.
pub fn probe_rk3588(node: &fdt_edit::NodeType<'_>, devices: usize) -> (script: Option<
    Result<Vec<Instr>, ProbeError>,
>)
    requires
        node_is_linked(*node),
    ensures
        script is None <==> node_is_pci(*node) && !is_decodable(*node),
        node_is_pci(*node) && !node_properties(*node).dom().contains("reg"@) ==> script == Some(
            Err::<Vec<Instr>, ProbeError>(ProbeError::NoApbRegister),
        ),
        script matches Some(Ok(list)) ==> node_script(*node, devices as int) == Ok::<
            Seq<Instr>,
            ProbeError,
        >(list@),
        script matches Some(Err(error)) ==> node_script(*node, devices as int) == Err::<
            Seq<Instr>,
            ProbeError,
        >(error),
{
    if bridge(node).is_none() {
        return Some(Err(ProbeError::NotMatch));
    }
    let regs = match registers(node) {
        Some(regs) => regs,
        None => return None,
    };
    match PcieNode::read(node, regs) {
        Ok(read) => Some(plan_host(&read, devices)),
        Err(error) => Some(Err(error)),
    }
}

} // verus!
