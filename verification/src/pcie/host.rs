//! The host itself: its configuration window, its buses, its outbound windows
//! and the ranges that it offers.
use super::error::ProbeError;
use super::ranges::{lemma_outbound_windows, memory_ranges};
use crate::fdt::{PciRange, PciSpace, RegFixed};
use crate::script::{plain, plain_instr, Action, Instr, OutboundWindow};
use vstd::prelude::*;

verus! {

/// Bytes of a configuration window that does not say how large it is.
pub const DEFAULT_CFG_SIZE: u64 = 0x10_0000;

/// Whether a range of the host can be its configuration window: 32-bit memory
/// of the usual size, at the same address on both sides.
pub open spec fn can_be_config(range: PciRange) -> bool {
    &&& range.space == PciSpace::Memory32
    &&& range.size == DEFAULT_CFG_SIZE
    &&& range.cpu_address == range.bus_address
}

/// The first range from number `from` on that can be the configuration
/// window.
pub open spec fn first_config(ranges: Seq<PciRange>, from: int) -> Option<(u64, u64)>
    decreases ranges.len() - from,
{
    if from < 0 || from >= ranges.len() {
        None
    } else if can_be_config(ranges[from]) {
        Some((ranges[from].cpu_address, ranges[from].size))
    } else {
        first_config(ranges, from + 1)
    }
}

/// The address and the size of the configuration window: the third register
/// range, or else the first range that can be it.
pub open spec fn config_window_of(
    regs: Seq<RegFixed>,
    ranges: Seq<PciRange>,
) -> Option<(u64, u64)> {
    if regs.len() > 2 {
        Some(
            (
                regs[2].address,
                match regs[2].size {
                    Some(size) => size,
                    None => DEFAULT_CFG_SIZE,
                },
            ),
        )
    } else {
        first_config(ranges, 0)
    }
}

/// The address and the size of the configuration window: the third register
/// range, or else the first range that can be it.
pub fn config_window(regs: &[RegFixed], ranges: &[PciRange]) -> (window: Result<
    (u64, u64),
    ProbeError,
>)
    ensures
        window == match config_window_of(regs@, ranges@) {
            Some(found) => Ok::<(u64, u64), ProbeError>(found),
            None => Err(ProbeError::NoConfigWindow),
        },
{
    if regs.len() > 2 {
        let size: u64 = match regs[2].size {
            Some(size) => size,
            None => DEFAULT_CFG_SIZE,
        };
        return Ok((regs[2].address, size));
    }
    let mut i: usize = 0;
    while i < ranges.len()
        invariant
            i <= ranges.len(),
            regs.len() <= 2,
            first_config(ranges@, 0) == first_config(ranges@, i as int),
        decreases ranges.len() - i,
    {
        let range = ranges[i];
        let memory32 = match range.space {
            PciSpace::Memory32 => true,
            _ => false,
        };
        if memory32 && range.size == DEFAULT_CFG_SIZE && range.cpu_address == range.bus_address {
            return Ok((range.cpu_address, range.size));
        }
        i = i + 1;
    }
    Err(ProbeError::NoConfigWindow)
}

/// The first bus of a host, and how far its logical buses go.
pub open spec fn bus_info(bus_range: Option<(u32, u32)>) -> (u8, u8) {
    match bus_range {
        Some((start, end)) => (
            if start > 255 {
                255
            } else {
                start as u8
            },
            if end <= start {
                1
            } else if end - start > 255 {
                255
            } else {
                (end - start) as u8
            },
        ),
        None => (0, 255),
    }
}

pub open spec fn range_view(range: Option<core::ops::Range<u32>>) -> Option<(u32, u32)> {
    match range {
        Some(range) => Some((range.start, range.end)),
        None => None,
    }
}

/// The first bus of a host, and how far its logical buses go, both cut to what
/// a bus number can be. There is at least one bus beside the host's own.
pub fn bus_range_info(bus_range: Option<core::ops::Range<u32>>) -> (info: (u8, u8))
    ensures
        info == bus_info(range_view(bus_range)),
{
    let bus_range = match bus_range {
        Some(bus_range) => bus_range,
        None => return (0, u8::MAX),
    };
    let start: u32 = bus_range.start;
    let bus_base: u8 = if start > 255 {
        255
    } else {
        start as u8
    };
    let count: u32 = bus_range.end.saturating_sub(start);
    let logical_end: u8 = if count < 1 {
        1
    } else if count > 255 {
        255
    } else {
        count as u8
    };
    (bus_base, logical_end)
}

/// A host always has a logical bus beside its own.
pub proof fn lemma_bus_info(bus_range: Option<(u32, u32)>)
    ensures
        bus_info(bus_range).1 >= 1,
        bus_range matches Some((start, end)) ==> start <= 255 && start < end && end - start <= 255
            ==> bus_info(bus_range) == (start as u8, (end - start) as u8),
{
}

/// Whether a range is the configuration window.
pub open spec fn is_config(range: PciRange, cfg_phys: u64, cfg_size: u64) -> bool {
    range.cpu_address == cfg_phys && range.size == cfg_size
}

/// Whether a range is the configuration window.
pub fn is_config_range(range: &PciRange, cfg_phys: u64, cfg_size: u64) -> (config: bool)
    ensures
        config == is_config(*range, cfg_phys, cfg_size),
{
    range.cpu_address == cfg_phys && range.size == cfg_size
}

/// Reads `rk3588_pci::MEM_ATU_FIRST_REGION`. Claimed: it is 1.
#[verifier::external_body]
fn mem_atu_first_region() -> (region: u8)
    ensures
        region == 1,
{
    rk3588_pci::MEM_ATU_FIRST_REGION
}

/// Whether a range gets an outbound window: it is memory, and not the
/// configuration window.
pub open spec fn is_outbound(range: PciRange, cfg_phys: u64, cfg_size: u64) -> bool {
    !is_config(range, cfg_phys, cfg_size) && range.space != PciSpace::IO
}

/// The region of the outbound window of that number: they follow one another
/// from region 1 on, and the last region takes all that are left over.
pub open spec fn outbound_region(number: int) -> u8 {
    if number >= 254 {
        255
    } else {
        (1 + number) as u8
    }
}

/// The instruction that programs the outbound window of that number.
pub open spec fn outbound_instr(number: int, range: PciRange) -> Instr {
    plain(
        Action::ProgramWindow {
            region: outbound_region(number),
            outbound: OutboundWindow {
                cpu_base: range.cpu_address,
                pci_base: range.bus_address,
                size: range.size,
            },
        },
    )
}

/// The script that programs the outbound windows: one for each memory range
/// that is not the configuration window, in their order.
pub open spec fn outbound_script(ranges: Seq<PciRange>, cfg_phys: u64, cfg_size: u64) -> Seq<Instr> {
    let outbound = ranges.filter(|range: PciRange| is_outbound(range, cfg_phys, cfg_size));
    Seq::new(outbound.len(), |i: int| outbound_instr(i, outbound[i]))
}

/// The script that programs the outbound windows of a host. Where one is
/// refused, the others are programmed nevertheless.
pub fn program_memory_windows(ranges: &[PciRange], cfg_phys: u64, cfg_size: u64) -> (script: Vec<
    Instr,
>)
    ensures
        script@ == outbound_script(ranges@, cfg_phys, cfg_size),
        script@.len() == memory_ranges(ranges@, cfg_phys, cfg_size).len(),
{
    let ghost outbound = |range: PciRange| is_outbound(range, cfg_phys, cfg_size);
    let mut script: Vec<Instr> = Vec::new();
    let mut region: u8 = mem_atu_first_region();
    let mut i: usize = 0;
    assert(ranges@.take(0).filter(outbound).len() == 0) by {
        reveal(Seq::filter);
    }
    assert(script@ =~= outbound_script(ranges@.take(0), cfg_phys, cfg_size));
    while i < ranges.len()
        invariant
            i <= ranges.len(),
            outbound == (|range: PciRange| is_outbound(range, cfg_phys, cfg_size)),
            script@ == outbound_script(ranges@.take(i as int), cfg_phys, cfg_size),
            region == outbound_region(script@.len() as int),
        decreases ranges.len() - i,
    {
        let range = ranges[i];
        proof {
            let before = ranges@.take(i as int);
            assert(ranges@.take(i + 1).drop_last() =~= before);
            assert(ranges@.take(i + 1).filter(outbound) == if outbound(range) {
                before.filter(outbound).push(range)
            } else {
                before.filter(outbound)
            }) by {
                reveal(Seq::filter);
            }
        }
        let memory = match range.space {
            PciSpace::IO => false,
            _ => true,
        };
        if memory && !is_config_range(&range, cfg_phys, cfg_size) {
            script.push(
                plain_instr(
                    Action::ProgramWindow {
                        region,
                        outbound: OutboundWindow {
                            cpu_base: range.cpu_address,
                            pci_base: range.bus_address,
                            size: range.size,
                        },
                    },
                ),
            );
            region = region.saturating_add(1);
        }
        i = i + 1;
        assert(script@ =~= outbound_script(ranges@.take(i as int), cfg_phys, cfg_size));
    }
    assert(ranges@.take(i as int) =~= ranges@);
    proof {
        lemma_outbound_windows(ranges@, cfg_phys, cfg_size, 0);
    }
    script
}

/// The instruction that offers a range. 32-bit memory is offered as 64-bit
/// memory too.
pub open spec fn bar_instr(range: PciRange) -> Instr {
    plain(Action::SetBarRange { range, mem64: range.space == PciSpace::Memory32 })
}

/// The script that offers the ranges of a host: all but the configuration
/// window, in their order.
pub open spec fn bar_script(ranges: Seq<PciRange>, cfg_phys: u64, cfg_size: u64) -> Seq<Instr> {
    ranges.filter(|range: PciRange| !is_config(range, cfg_phys, cfg_size)).map_values(
        |range: PciRange| bar_instr(range),
    )
}

/// The instruction that offers a range.
pub fn set_rk3588_bar_range(range: &PciRange) -> (instr: Instr)
    ensures
        instr == bar_instr(*range),
{
    let mem64 = match range.space {
        PciSpace::Memory32 => true,
        _ => false,
    };
    plain_instr(Action::SetBarRange { range: *range, mem64 })
}

/// The script that offers the ranges of a host to the base address registers.
pub fn set_bar_ranges(ranges: &[PciRange], cfg_phys: u64, cfg_size: u64) -> (script: Vec<Instr>)
    ensures
        script@ == bar_script(ranges@, cfg_phys, cfg_size),
{
    let ghost offered = |range: PciRange| !is_config(range, cfg_phys, cfg_size);
    let mut script: Vec<Instr> = Vec::new();
    let mut i: usize = 0;
    assert(ranges@.take(0).filter(offered).len() == 0) by {
        reveal(Seq::filter);
    }
    assert(script@ =~= bar_script(ranges@.take(0), cfg_phys, cfg_size));
    while i < ranges.len()
        invariant
            i <= ranges.len(),
            offered == (|range: PciRange| !is_config(range, cfg_phys, cfg_size)),
            script@ == bar_script(ranges@.take(i as int), cfg_phys, cfg_size),
        decreases ranges.len() - i,
    {
        let range = ranges[i];
        proof {
            let before = ranges@.take(i as int);
            assert(ranges@.take(i + 1).drop_last() =~= before);
            assert(ranges@.take(i + 1).filter(offered) == if offered(range) {
                before.filter(offered).push(range)
            } else {
                before.filter(offered)
            }) by {
                reveal(Seq::filter);
            }
        }
        if !is_config_range(&range, cfg_phys, cfg_size) {
            script.push(set_rk3588_bar_range(&range));
        }
        i = i + 1;
        assert(script@ =~= bar_script(ranges@.take(i as int), cfg_phys, cfg_size));
    }
    assert(ranges@.take(i as int) =~= ranges@);
    script
}

/// No outbound window and no offered range is the configuration window, and
/// every outbound window is that of a memory range of the host.
pub proof fn lemma_config_window_kept(
    ranges: Seq<PciRange>,
    cfg_phys: u64,
    cfg_size: u64,
    i: int,
)
    ensures
        0 <= i < outbound_script(ranges, cfg_phys, cfg_size).len() ==> exists|range: PciRange|
            #![trigger ranges.contains(range)]
            ranges.contains(range) && is_outbound(range, cfg_phys, cfg_size) && outbound_script(
                ranges,
                cfg_phys,
                cfg_size,
            )[i] == outbound_instr(i, range),
        0 <= i < bar_script(ranges, cfg_phys, cfg_size).len() ==> exists|range: PciRange|
            #![trigger ranges.contains(range)]
            ranges.contains(range) && !is_config(range, cfg_phys, cfg_size) && bar_script(
                ranges,
                cfg_phys,
                cfg_size,
            )[i] == bar_instr(range),
{
    let outbound = |range: PciRange| is_outbound(range, cfg_phys, cfg_size);
    let offered = |range: PciRange| !is_config(range, cfg_phys, cfg_size);
    broadcast use vstd::seq_lib::group_filter_ensures;

    if 0 <= i < outbound_script(ranges, cfg_phys, cfg_size).len() {
        let range = ranges.filter(outbound)[i];
        ranges.lemma_filter_contains_rev(outbound, range);
    }
    if 0 <= i < bar_script(ranges, cfg_phys, cfg_size).len() {
        let range = ranges.filter(offered)[i];
        ranges.lemma_filter_contains_rev(offered, range);
    }
}

/// A range is its start and its end.
pub proof fn lemma_range_view(range: core::ops::Range<u32>)
    ensures
        range_view(Some(range)) == Some((range.start, range.end)),
        range_view(None) is None,
{
}

} // verus!
