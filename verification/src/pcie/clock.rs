//! Clocks of the PCIe hosts and of their PHYs.
use crate::fdt::{Clock, ClockView};
use crate::guard::{
    closed, guarded, lemma_closed_concat, lemma_guarded_concat, needs, provided_at, Resource,
};
use crate::script::{plain, plain_instr, reaches, skipping, skipping_instr, Action, Instr};
use crate::text::same_text;
use vstd::prelude::*;

verus! {

pub const RK3588_ACLK_PCIE_1L0_DBI: usize = 317;

pub const RK3588_ACLK_PCIE_1L1_DBI: usize = 318;

pub const RK3588_ACLK_PCIE_1L2_DBI: usize = 319;

pub const RK3588_ACLK_PCIE_1L0_MSTR: usize = 322;

pub const RK3588_ACLK_PCIE_1L1_MSTR: usize = 323;

pub const RK3588_ACLK_PCIE_1L2_MSTR: usize = 324;

pub const RK3588_ACLK_PCIE_1L0_SLV: usize = 327;

pub const RK3588_ACLK_PCIE_1L1_SLV: usize = 328;

pub const RK3588_ACLK_PCIE_1L2_SLV: usize = 329;

pub const RK3588_PCLK_PCIE_1L0: usize = 332;

pub const RK3588_PCLK_PCIE_1L1: usize = 333;

pub const RK3588_PCLK_PCIE_1L2: usize = 334;

pub const RK3588_CLK_PCIE_AUX2: usize = 337;

pub const RK3588_CLK_PCIE_AUX3: usize = 338;

pub const RK3588_CLK_PCIE_AUX4: usize = 339;

pub const RK3588_CLK_PIPEPHY0_REF: usize = 340;

pub const RK3588_CLK_PIPEPHY1_REF: usize = 341;

pub const RK3588_CLK_PIPEPHY2_REF: usize = 342;

pub const RK3588_CLK_PIPEPHY0_PIPE_G: usize = 364;

pub const RK3588_CLK_PIPEPHY1_PIPE_G: usize = 365;

pub const RK3588_CLK_PIPEPHY2_PIPE_G: usize = 366;

pub const RK3588_CLK_PIPEPHY0_PIPE_ASIC_G: usize = 367;

pub const RK3588_CLK_PIPEPHY1_PIPE_ASIC_G: usize = 368;

pub const RK3588_CLK_PIPEPHY2_PIPE_ASIC_G: usize = 369;

pub const RK3588_CLK_PCIE1L2_PIPE: usize = 371;

pub const RK3588_CLK_PCIE1L0_PIPE: usize = 687;

pub const RK3588_CLK_PCIE1L1_PIPE: usize = 688;

pub const RK3588_PCLK_PCIE_COMBO_PIPE_PHY0: usize = 374;

pub const RK3588_PCLK_PCIE_COMBO_PIPE_PHY1: usize = 375;

pub const RK3588_PCLK_PCIE_COMBO_PIPE_PHY2: usize = 376;

pub const RK3588_PCLK_PCIE_COMBO_PIPE_PHY: usize = 377;

/// The phandle of the clock and reset unit.
pub const RK3588_CRU_PHANDLE: u32 = 0x02;

/// The number of a single-lane host, by the address of its client registers.
pub open spec fn host_index(apb_base: u64) -> Option<u8> {
    if apb_base == 0xfe15_0000 {
        Some(0)
    } else if apb_base == 0xfe18_0000 {
        Some(1)
    } else if apb_base == 0xfe19_0000 {
        Some(2)
    } else {
        None
    }
}

/// The number of a single-lane host, by the address of its client registers.
pub fn rk3588_pcie_1l_index(apb_base: u64) -> (index: Option<u8>)
    ensures
        index == host_index(apb_base),
{
    match apb_base {
        0xfe15_0000 => Some(0),
        0xfe18_0000 => Some(1),
        0xfe19_0000 => Some(2),
        _ => None,
    }
}

/// The number of the clock that a host calls by that name.
pub open spec fn host_clock(index: u8, name: Seq<char>) -> Option<usize> {
    if name == "aclk_mst"@ {
        Some((322 + index) as usize)
    } else if name == "aclk_slv"@ {
        Some((327 + index) as usize)
    } else if name == "aclk_dbi"@ {
        Some((317 + index) as usize)
    } else if name == "pclk"@ {
        Some((332 + index) as usize)
    } else if name == "aux"@ {
        Some((337 + index) as usize)
    } else if name == "pipe"@ {
        if index == 2 {
            Some(371)
        } else {
            Some((687 + index) as usize)
        }
    } else {
        None
    }
}

/// The number of a host's clock of that name; none for a host or a name that
/// is not known, and for a clock without a name.
pub open spec fn named_clock(apb_base: u64, name: Option<Seq<char>>) -> Option<usize> {
    match (host_index(apb_base), name) {
        (Some(index), Some(text)) => host_clock(index, text),
        _ => None,
    }
}

pub open spec fn name_view(name: Option<&str>) -> Option<Seq<char>> {
    match name {
        Some(text) => Some(text@),
        None => None,
    }
}

/// The number of a host's clock of that name; none for a host or a name that
/// is not known, and for a clock without a name.
pub fn controller_clock_id(apb_base: u64, name: Option<&str>) -> (clock_id: Option<usize>)
    ensures
        clock_id == named_clock(apb_base, name_view(name)),
{
    let index: u8 = match rk3588_pcie_1l_index(apb_base) {
        Some(index) => index,
        None => return None,
    };
    let text = match name {
        Some(text) => text,
        None => return None,
    };
    if same_text(text, "aclk_mst") {
        match index {
            0 => Some(RK3588_ACLK_PCIE_1L0_MSTR),
            1 => Some(RK3588_ACLK_PCIE_1L1_MSTR),
            2 => Some(RK3588_ACLK_PCIE_1L2_MSTR),
            _ => None,
        }
    } else if same_text(text, "aclk_slv") {
        match index {
            0 => Some(RK3588_ACLK_PCIE_1L0_SLV),
            1 => Some(RK3588_ACLK_PCIE_1L1_SLV),
            2 => Some(RK3588_ACLK_PCIE_1L2_SLV),
            _ => None,
        }
    } else if same_text(text, "aclk_dbi") {
        match index {
            0 => Some(RK3588_ACLK_PCIE_1L0_DBI),
            1 => Some(RK3588_ACLK_PCIE_1L1_DBI),
            2 => Some(RK3588_ACLK_PCIE_1L2_DBI),
            _ => None,
        }
    } else if same_text(text, "pclk") {
        match index {
            0 => Some(RK3588_PCLK_PCIE_1L0),
            1 => Some(RK3588_PCLK_PCIE_1L1),
            2 => Some(RK3588_PCLK_PCIE_1L2),
            _ => None,
        }
    } else if same_text(text, "aux") {
        match index {
            0 => Some(RK3588_CLK_PCIE_AUX2),
            1 => Some(RK3588_CLK_PCIE_AUX3),
            2 => Some(RK3588_CLK_PCIE_AUX4),
            _ => None,
        }
    } else if same_text(text, "pipe") {
        match index {
            0 => Some(RK3588_CLK_PCIE1L0_PIPE),
            1 => Some(RK3588_CLK_PCIE1L1_PIPE),
            2 => Some(RK3588_CLK_PCIE1L2_PIPE),
            _ => None,
        }
    } else {
        None
    }
}

/// No two clocks of the hosts share a number.
pub proof fn lemma_host_clocks_distinct(
    apb_a: u64,
    name_a: Option<Seq<char>>,
    apb_b: u64,
    name_b: Option<Seq<char>>,
)
    requires
        named_clock(apb_a, name_a) is Some,
        named_clock(apb_a, name_a) == named_clock(apb_b, name_b),
    ensures
        apb_a == apb_b,
        name_a == name_b,
{
}

/// The number of the clock to enable for an entry of `clocks`: by its name
/// where the host has one of that name, else by the entry's first cell.
pub open spec fn wanted_clock(apb_base: u64, clock: ClockView) -> Option<usize> {
    match named_clock(apb_base, clock.name) {
        Some(clock_id) => Some(clock_id),
        None => match clock.selected() {
            Some(cell) => Some(cell as usize),
            None => None,
        },
    }
}

/// The script that enables one clock of a host. Where its device is not to be
/// had, the clock is passed over; where it has no number, only the device is
/// looked for. The peripheral clocks are enabled even where the rate was
/// refused.
pub open spec fn clock_script(apb_base: u64, clock: ClockView) -> Seq<Instr> {
    match wanted_clock(apb_base, clock) {
        Some(clock_id) => seq![
            skipping(Action::AcquireClock { phandle: clock.phandle }, 2),
            plain(Action::SetRate { clock: 0, rate: clock_id as u64 }),
            plain(Action::PeripheralEnable),
        ],
        None => seq![plain(Action::AcquireClock { phandle: clock.phandle })],
    }
}

/// The script that enables the clocks of a host, one after the other.
pub open spec fn clocks_script(apb_base: u64, clocks: Seq<ClockView>) -> Seq<Instr>
    decreases clocks.len(),
{
    if clocks.len() == 0 {
        seq![]
    } else {
        clocks_script(apb_base, clocks.drop_last()) + clock_script(apb_base, clocks.last())
    }
}

fn push_clock(script: &mut Vec<Instr>, apb_base: u64, clock: &Clock)
    ensures
        final(script)@ == old(script)@ + clock_script(apb_base, clock@),
{
    let name = match &clock.name {
        Some(text) => Some(text.as_str()),
        None => None,
    };
    let wanted = match controller_clock_id(apb_base, name) {
        Some(clock_id) => Some(clock_id),
        None => match clock.select() {
            Some(cell) => Some(cell as usize),
            None => None,
        },
    };
    match wanted {
        Some(clock_id) => {
            script.push(skipping_instr(Action::AcquireClock { phandle: clock.phandle }, 2));
            script.push(plain_instr(Action::SetRate { clock: 0, rate: clock_id as u64 }));
            script.push(plain_instr(Action::PeripheralEnable));
        },
        None => {
            script.push(plain_instr(Action::AcquireClock { phandle: clock.phandle }));
        },
    }
    assert(script@ =~= old(script)@ + clock_script(apb_base, clock@));
}

/// The script that enables the clocks of a host, in their order.
pub fn enable_pcie_clocks(apb_base: u64, clocks: &[Clock]) -> (script: Vec<Instr>)
    ensures
        script@ == clocks_script(apb_base, crate::fdt::clock_views(clocks@)),
{
    let mut script: Vec<Instr> = Vec::new();
    let ghost views = crate::fdt::clock_views(clocks@);
    let mut i: usize = 0;
    while i < clocks.len()
        invariant
            i <= clocks.len(),
            views == crate::fdt::clock_views(clocks@),
            script@ == clocks_script(apb_base, views.take(i as int)),
        decreases clocks.len() - i,
    {
        push_clock(&mut script, apb_base, &clocks[i]);
        assert(views.take(i + 1).drop_last() =~= views.take(i as int));
        i = i + 1;
    }
    assert(views.take(i as int) =~= views);
    script
}

/// The script that enables one clock of the clock and reset unit.
pub open spec fn cru_clock_script(clock_id: usize) -> Seq<Instr> {
    seq![
        skipping(Action::AcquireClock { phandle: RK3588_CRU_PHANDLE }, 1),
        plain(Action::SetRate { clock: 0, rate: clock_id as u64 }),
    ]
}

/// Adds the script that enables one clock of the clock and reset unit. Where
/// the unit's device is not to be had, the clock is passed over.
pub fn enable_clock_id(script: &mut Vec<Instr>, clock_id: usize)
    ensures
        final(script)@ == old(script)@ + cru_clock_script(clock_id),
{
    script.push(skipping_instr(Action::AcquireClock { phandle: RK3588_CRU_PHANDLE }, 1));
    script.push(plain_instr(Action::SetRate { clock: 0, rate: clock_id as u64 }));
    assert(script@ =~= old(script)@ + cru_clock_script(clock_id));
}

/// A host's clock is set only where its device has been acquired.
pub proof fn lemma_clock_script_guarded(apb_base: u64, clock: ClockView)
    ensures
        closed(clock_script(apb_base, clock)),
        guarded(clock_script(apb_base, clock)),
{
    let script = clock_script(apb_base, clock);
    assert forall|ok: spec_fn(int) -> bool, i: int, resource: Resource, bytes: int|
        0 <= i < script.len() && #[trigger] reaches(script, ok, 0, i) && #[trigger] needs(
            script[i].action,
            resource,
            bytes,
        ) implies exists|j: int| provided_at(script, ok, i, resource, bytes, j) by {
        reveal_with_fuel(reaches, 4);
        assert(1 <= i <= 2);
        assert(provided_at(script, ok, i, resource, bytes, 0));
    }
}

/// The clocks of a host are set only where their devices have been acquired.
pub proof fn lemma_clocks_script_guarded(apb_base: u64, clocks: Seq<ClockView>)
    ensures
        closed(clocks_script(apb_base, clocks)),
        guarded(clocks_script(apb_base, clocks)),
    decreases clocks.len(),
{
    if clocks.len() > 0 {
        let first = clocks_script(apb_base, clocks.drop_last());
        let last = clock_script(apb_base, clocks.last());
        lemma_clocks_script_guarded(apb_base, clocks.drop_last());
        lemma_clock_script_guarded(apb_base, clocks.last());
        lemma_closed_concat(first, last);
        lemma_guarded_concat(first, last);
    }
}

/// A clock of the clock and reset unit is set only where its device has been
/// acquired.
pub proof fn lemma_cru_clock_guarded(clock_id: usize)
    ensures
        closed(cru_clock_script(clock_id)),
        guarded(cru_clock_script(clock_id)),
{
    let script = cru_clock_script(clock_id);
    assert forall|ok: spec_fn(int) -> bool, i: int, resource: Resource, bytes: int|
        0 <= i < script.len() && #[trigger] reaches(script, ok, 0, i) && #[trigger] needs(
            script[i].action,
            resource,
            bytes,
        ) implies exists|j: int| provided_at(script, ok, i, resource, bytes, j) by {
        reveal_with_fuel(reaches, 3);
        assert(i == 1);
        assert(provided_at(script, ok, i, resource, bytes, 0));
    }
}

/// A name is what its characters are.
pub proof fn lemma_name_view(name: &str)
    ensures
        name_view(Some(name)) == Some(name@),
        name_view(None) is None,
{
}

} // verus!
