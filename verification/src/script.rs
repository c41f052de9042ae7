//! Scripts: what the PCIe driver has the hardware do, step by step.
//!
//! A script is a list of instructions. Each holds one action and says how to
//! go on when the action has succeeded or failed. A [`Runner`] walks a script:
//! it names the action that is due, and is told how it went.
use crate::fdt::PciRange;
use crate::pcie::gpio::Rk3588GpioReset;
use vstd::prelude::*;

verus! {

/// A register window that a script works with.
#[derive(Clone, Copy, Debug, PartialEq, Eq)]
pub enum Slot {
    /// The GPIO bank of the reset line of the slot.
    Perst,
    /// The GPIO bank of a regulator.
    Gpio,
    /// The clock and reset unit.
    Cru,
    /// The control registers of one PHY.
    PhyGrf,
    /// The control registers that the PHYs share.
    PipeGrf,
    /// The PHY itself.
    Phy,
    /// The client registers of the host.
    Apb,
    /// The DesignWare registers of the host.
    Dbi,
    /// The configuration window of the host.
    Cfg,
}

/// A range of physical addresses that holds registers.
#[derive(Clone, Copy, Debug, PartialEq, Eq)]
pub struct Window {
    pub base: u64,
    pub size: usize,
}

/// How the host reaches its address translation unit.
#[derive(Clone, Copy, Debug, PartialEq, Eq)]
pub enum IatuMode {
    Unroll,
    Viewport,
}

/// What the host is made with.
#[derive(Clone, Copy, Debug, PartialEq, Eq)]
pub struct HostConfig {
    pub apb_phys: u64,
    pub cfg_phys: u64,
    pub cfg_size: usize,
    pub bus_base: u8,
    pub logical_bus_end: u8,
    pub iatu_mode: IatuMode,
}

/// A range of CPU addresses that the host passes on to the bus.
#[derive(Clone, Copy, Debug, PartialEq, Eq)]
pub struct OutboundWindow {
    pub cpu_base: u64,
    pub pci_base: u64,
    pub size: u64,
}

/// One thing to be done.
#[derive(Clone, Copy, Debug, PartialEq, Eq)]
pub enum Action {
    /// Map `window`, and use it as `slot` from now on.
    MapWindow { slot: Slot, window: Window },
    /// Write `value` to the register at `offset`.
    Write { slot: Slot, offset: usize, value: u32 },
    /// Replace the bits of `mask` in the register at `offset`.
    Update { slot: Slot, offset: usize, mask: u32, value: u32 },
    /// Wait, in microseconds.
    DelayUs(u64),
    /// Wait, in milliseconds.
    DelayMs(u64),
    /// Have the power manager of that number switch a power domain on.
    PowerOn { device: usize, domain: usize },
    /// Find and lock the clock device that the phandle refers to.
    AcquireClock { phandle: u32 },
    /// Set the rate of a clock of the device acquired last.
    SetRate { clock: usize, rate: u64 },
    /// Enable the peripheral clocks of the device acquired last.
    PeripheralEnable,
    /// Make the host from its three windows and train its link, with the reset
    /// line if there is one.
    StartHost { config: HostConfig, perst: Option<Rk3588GpioReset> },
    /// Program one outbound window of the host.
    ProgramWindow { region: u8, outbound: OutboundWindow },
    /// Let the legacy interrupts through.
    UnmaskLegacyIntx,
    /// Announce the legacy interrupts of the buses up to that one.
    RegisterLegacyIrq { logical_bus_end: u8 },
    /// Offer a range to the base address registers; where `mem64` is set, also
    /// as 64-bit memory.
    SetBarRange { range: PciRange, mem64: bool },
    /// Announce the controller.
    RegisterController,
}

/// How a script goes on after an action that failed.
#[derive(Clone, Copy, Debug, PartialEq, Eq)]
pub enum OnFailure {
    /// With the next instruction.
    Continue,
    /// With the next instruction but that many.
    Skip(usize),
    /// Not at all.
    Abort,
}

/// One instruction of a script.
#[derive(Clone, Copy, Debug, PartialEq, Eq)]
pub struct Instr {
    pub action: Action,
    /// How many instructions to leave out after a success.
    pub on_success: usize,
    pub on_failure: OnFailure,
}

/// An instruction after which the script goes on in any case.
pub open spec fn plain(action: Action) -> Instr {
    Instr { action, on_success: 0, on_failure: OnFailure::Continue }
}

/// An instruction whose failure leaves out the next `count`.
pub open spec fn skipping(action: Action, count: usize) -> Instr {
    Instr { action, on_success: 0, on_failure: OnFailure::Skip(count) }
}

/// An instruction whose failure ends the script.
pub open spec fn required(action: Action) -> Instr {
    Instr { action, on_success: 0, on_failure: OnFailure::Abort }
}

/// Makes an instruction after which the script goes on in any case.
pub fn plain_instr(action: Action) -> (instr: Instr)
    ensures
        instr == plain(action),
{
    Instr { action, on_success: 0, on_failure: OnFailure::Continue }
}

/// Makes an instruction whose failure leaves out the next `count`.
pub fn skipping_instr(action: Action, count: usize) -> (instr: Instr)
    ensures
        instr == skipping(action, count),
{
    Instr { action, on_success: 0, on_failure: OnFailure::Skip(count) }
}

/// Makes an instruction whose failure ends the script.
pub fn required_instr(action: Action) -> (instr: Instr)
    ensures
        instr == required(action),
{
    Instr { action, on_success: 0, on_failure: OnFailure::Abort }
}

/// The instruction after the one at `pc`, when that many are left out; the end
/// of the script where it has no such instruction.
pub open spec fn forward(len: int, pc: int, count: int) -> int {
    if pc + 1 + count < len {
        pc + 1 + count
    } else {
        len
    }
}

/// The instruction that follows the one at `pc`, or the end of the script;
/// none where the script is over because the action failed.
pub open spec fn successor(script: Seq<Instr>, pc: int, ok: bool) -> Option<int> {
    if ok {
        Some(forward(script.len() as int, pc, script[pc].on_success as int))
    } else {
        match script[pc].on_failure {
            OnFailure::Continue => Some(forward(script.len() as int, pc, 0)),
            OnFailure::Skip(count) => Some(forward(script.len() as int, pc, count as int)),
            OnFailure::Abort => None,
        }
    }
}

/// Whether a run that is at `from` comes to the instruction `to` (or, where
/// `to` is the script's length, to its end), when the action of instruction
/// `i` succeeds exactly if `ok(i)`.
pub open spec fn reaches(
    script: Seq<Instr>,
    ok: spec_fn(int) -> bool,
    from: int,
    to: int,
) -> bool
    decreases script.len() - from,
{
    if from == to {
        true
    } else if 0 <= from < to && from < script.len() {
        match successor(script, from, ok(from)) {
            Some(next) => reaches(script, ok, next, to),
            None => false,
        }
    } else {
        false
    }
}

/// Where a run of a script stands.
pub struct RunState {
    /// The instruction that is due.
    pub pc: int,
    /// Whether the window of the reset line has been mapped.
    pub perst: bool,
    /// Whether a failure has ended the run.
    pub aborted: bool,
}

/// The state before the first instruction.
pub open spec fn start_state() -> RunState {
    RunState { pc: 0, perst: false, aborted: false }
}

/// Whether an instruction is due.
pub open spec fn is_running(script: Seq<Instr>, state: RunState) -> bool {
    !state.aborted && 0 <= state.pc < script.len()
}

/// The action that is due: that of the instruction, but that the host is
/// started without a reset line whose window is not mapped.
pub open spec fn due_action(script: Seq<Instr>, state: RunState) -> Action {
    match script[state.pc].action {
        Action::StartHost { config, perst } => Action::StartHost {
            config,
            perst: if state.perst {
                perst
            } else {
                None
            },
        },
        other => other,
    }
}

/// Whether the action maps the window of the reset line.
pub open spec fn maps_perst(action: Action) -> bool {
    action matches Action::MapWindow { slot, .. } && slot == Slot::Perst
}

/// The state after the action that is due has succeeded or failed.
pub open spec fn next_state(script: Seq<Instr>, state: RunState, ok: bool) -> RunState {
    let perst = if maps_perst(script[state.pc].action) {
        ok
    } else {
        state.perst
    };
    match successor(script, state.pc, ok) {
        Some(pc) => RunState { pc, perst, aborted: false },
        None => RunState { pc: state.pc, perst, aborted: true },
    }
}

/// A run of a script.
pub struct Runner {
    script: Vec<Instr>,
    pc: usize,
    perst: bool,
    aborted: bool,
}

impl Runner {
    /// The script that is run.
    pub closed spec fn script(&self) -> Seq<Instr> {
        self.script@
    }

    /// Where the run stands.
    pub closed spec fn state(&self) -> RunState {
        RunState { pc: self.pc as int, perst: self.perst, aborted: self.aborted }
    }

    /// Starts at the first instruction.
    pub fn new(script: Vec<Instr>) -> (runner: Runner)
        ensures
            runner.script() == script@,
            runner.state() == start_state(),
    {
        Runner { script, pc: 0, perst: false, aborted: false }
    }

    /// The action that is due, none once the run is over.
    pub fn action(&self) -> (action: Option<Action>)
        ensures
            action is Some <==> is_running(self.script(), self.state()),
            action matches Some(due) ==> due == due_action(self.script(), self.state()),
    {
        if self.aborted || self.pc >= self.script.len() {
            return None;
        }
        let action = self.script[self.pc].action;
        match action {
            Action::StartHost { config, perst } => {
                if self.perst {
                    Some(action)
                } else {
                    Some(Action::StartHost { config, perst: None })
                }
            },
            _ => Some(action),
        }
    }

    /// Records whether the action that was due has succeeded.
    pub fn report(&mut self, ok: bool)
        requires
            is_running(old(self).script(), old(self).state()),
        ensures
            final(self).script() == old(self).script(),
            final(self).state() == next_state(old(self).script(), old(self).state(), ok),
    {
        let instr = self.script[self.pc];
        if let Action::MapWindow { slot, .. } = instr.action {
            if let Slot::Perst = slot {
                self.perst = ok;
            }
        }
        let count: usize = if ok {
            instr.on_success
        } else {
            match instr.on_failure {
                OnFailure::Continue => 0,
                OnFailure::Skip(count) => count,
                OnFailure::Abort => {
                    self.aborted = true;
                    return ;
                },
            }
        };
        let left: usize = self.script.len() - self.pc - 1;
        if count < left {
            self.pc = self.pc + 1 + count;
        } else {
            self.pc = self.script.len();
        }
    }

    /// The action whose failure has ended the run.
    pub fn failed_action(&self) -> (action: Option<Action>)
        ensures
            action is Some <==> self.state().aborted && self.state().pc < self.script().len(),
            action matches Some(failed) ==> failed == self.script()[self.state().pc].action,
    {
        if self.aborted && self.pc < self.script.len() {
            Some(self.script[self.pc].action)
        } else {
            None
        }
    }
}

} // verus!
