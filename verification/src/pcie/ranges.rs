//! Laws of the address ranges of a host: which get an outbound window, and
//! which are offered.
use super::host::{bar_script, is_config, is_outbound, outbound_script};
use crate::fdt::{PciRange, PciSpace};
use crate::script::{Action, Instr, OnFailure, OutboundWindow};
use vstd::prelude::*;

verus! {

/// The memory ranges of a host that differ from its configuration window in
/// address or size.
pub open spec fn memory_ranges(ranges: Seq<PciRange>, cfg_phys: u64, cfg_size: u64) -> Seq<
    PciRange,
> {
    ranges.filter(
        |range: PciRange|
            (range.space == PciSpace::Memory32 || range.space == PciSpace::Memory64) && (
            range.cpu_address != cfg_phys || range.size != cfg_size),
    )
}

/// The ranges of a host that differ from its configuration window in address or
/// size.
pub open spec fn other_ranges(ranges: Seq<PciRange>, cfg_phys: u64, cfg_size: u64) -> Seq<
    PciRange,
> {
    ranges.filter(|range: PciRange| range.cpu_address != cfg_phys || range.size != cfg_size)
}

/// As many outbound windows are programmed as the host has memory ranges beside
/// its configuration window; the k-th is the k-th of them, as it stands, in
/// region k + 1 or the last one, and whether it is taken or not, the next
/// follows.
pub proof fn lemma_outbound_windows(ranges: Seq<PciRange>, cfg_phys: u64, cfg_size: u64, k: int)
    ensures
        outbound_script(ranges, cfg_phys, cfg_size).len() == memory_ranges(
            ranges,
            cfg_phys,
            cfg_size,
        ).len(),
        0 <= k < memory_ranges(ranges, cfg_phys, cfg_size).len() ==> outbound_script(
            ranges,
            cfg_phys,
            cfg_size,
        )[k] == (Instr {
            action: Action::ProgramWindow {
                region: if k < 255 {
                    (k + 1) as u8
                } else {
                    255
                },
                outbound: OutboundWindow {
                    cpu_base: memory_ranges(ranges, cfg_phys, cfg_size)[k].cpu_address,
                    pci_base: memory_ranges(ranges, cfg_phys, cfg_size)[k].bus_address,
                    size: memory_ranges(ranges, cfg_phys, cfg_size)[k].size,
                },
            },
            on_success: 0,
            on_failure: OnFailure::Continue,
        }),
{
    let stated = |range: PciRange|
        (range.space == PciSpace::Memory32 || range.space == PciSpace::Memory64) && (
        range.cpu_address != cfg_phys || range.size != cfg_size);
    let wanted = |range: PciRange| is_outbound(range, cfg_phys, cfg_size);
    assert(stated =~= wanted);
}

/// Every memory range of the host that differs from the configuration window in
/// address or size, prefetchable or not, has its outbound window.
pub proof fn lemma_memory_range_is_reached(
    ranges: Seq<PciRange>,
    cfg_phys: u64,
    cfg_size: u64,
    i: int,
)
    requires
        0 <= i < ranges.len(),
        ranges[i].space == PciSpace::Memory32 || ranges[i].space == PciSpace::Memory64,
        ranges[i].cpu_address != cfg_phys || ranges[i].size != cfg_size,
    ensures
        exists|k: int|
            0 <= k < outbound_script(ranges, cfg_phys, cfg_size).len() && ((
            #[trigger] outbound_script(ranges, cfg_phys, cfg_size)[k]).action matches
                Action::ProgramWindow { outbound, .. } && outbound.cpu_base
                == ranges[i].cpu_address && outbound.pci_base == ranges[i].bus_address
                && outbound.size == ranges[i].size),
{
    broadcast use vstd::seq_lib::group_filter_ensures;

    let stated = |range: PciRange|
        (range.space == PciSpace::Memory32 || range.space == PciSpace::Memory64) && (
        range.cpu_address != cfg_phys || range.size != cfg_size);
    let memory = memory_ranges(ranges, cfg_phys, cfg_size);
    assert(ranges.contains(ranges[i]));
    assert(stated(ranges[i]));
    ranges.lemma_filter_contains(stated, i);
    let k = choose|k: int| 0 <= k < memory.len() && memory[k] == ranges[i];
    lemma_outbound_windows(ranges, cfg_phys, cfg_size, k);
    assert(outbound_script(ranges, cfg_phys, cfg_size)[k].action is ProgramWindow);
}

/// As many ranges are offered as the host has beside its configuration window,
/// in their order and as they stand; 32-bit memory, and nothing else, is offered
/// as 64-bit memory too.
pub proof fn lemma_offered_ranges(ranges: Seq<PciRange>, cfg_phys: u64, cfg_size: u64, k: int)
    ensures
        bar_script(ranges, cfg_phys, cfg_size).len() == other_ranges(
            ranges,
            cfg_phys,
            cfg_size,
        ).len(),
        0 <= k < other_ranges(ranges, cfg_phys, cfg_size).len() ==> bar_script(
            ranges,
            cfg_phys,
            cfg_size,
        )[k] == (Instr {
            action: Action::SetBarRange {
                range: other_ranges(ranges, cfg_phys, cfg_size)[k],
                mem64: other_ranges(ranges, cfg_phys, cfg_size)[k].space == PciSpace::Memory32,
            },
            on_success: 0,
            on_failure: OnFailure::Continue,
        }),
{
    let stated = |range: PciRange| range.cpu_address != cfg_phys || range.size != cfg_size;
    let wanted = |range: PciRange| !is_config(range, cfg_phys, cfg_size);
    assert(stated =~= wanted);
}

} // verus!
