//! Probing a controller: from its node to a registered block device.
//!
//! A probe is a walk of the caller from action to action: it performs the one
//! that is due and reports what came of it.
use super::clock::{core_clock_of, init_core_clock, CoreClock};
use super::error::{
    card_failure, card_init_error, init_error, means_absent_card, Error, ProbeError,
};
use crate::fdt::{
    is_decodable, node_clocks, node_is_linked, node_properties, node_regs, registers, RegFixed,
};
use vstd::prelude::*;

verus! {

/// The supply voltage of the card: on, at 3.3 V.
pub const SDHCI_POWER_330: u8 = 0x0e;

/// The bytes of registers where the node does not say.
pub const DEFAULT_SIZE: u64 = 0x1000;

/// What a probe waits for.
#[derive(Clone, Copy, Debug, PartialEq, Eq, Structural)]
pub enum Step {
    MapRegisters,
    FindClockDevice,
    GetClock,
    StoreClock,
    QueryClock,
    UseExternalClock,
    Reset,
    SetPower,
    EnableInterrupts,
    InitCard,
    Register { capacity_blocks: u64 },
    Finished,
    Failed(ProbeError),
}

/// What the caller is to do.
#[derive(Clone, Copy, Debug, PartialEq, Eq, Structural)]
pub enum Action {
    /// Map the registers of the host.
    MapRegisters { address: u64, size: u64 },
    /// Look up the device that the phandle belongs to.
    FindClockDevice { phandle: u32 },
    /// Get hold of the clock device found.
    GetClock,
    /// Keep it, and the number of the clock, unless another is being kept.
    StoreClock { id: usize },
    /// Find out whether a clock is being kept.
    QueryClock,
    /// Have the host's rate set by the clock that is being kept.
    UseExternalClock,
    /// Reset the host.
    ResetAll,
    /// Supply the card.
    SetPower { power: u8 },
    /// Switch the host's interrupts on.
    EnableInterrupts,
    /// Initialize the card.
    InitCard,
    /// Register the block device.
    Register { capacity_blocks: u64 },
}

/// What came of an action.
#[derive(Clone, Copy, Debug, PartialEq, Eq, Structural)]
pub enum Event {
    /// It was done.
    Done,
    /// It could not be done.
    Refused,
    /// The host or the card failed.
    HostFailed(Error),
    /// Whether a clock is being kept.
    ClockKept(bool),
    /// The card, with its blocks where it tells them.
    Card(Option<u64>),
}

/// A probe under way.
#[derive(Clone, Copy, Debug, PartialEq, Eq, Structural)]
pub struct Probe {
    pub address: u64,
    pub size: u64,
    /// The clock that feeds the host.
    pub core: Option<CoreClock>,
    pub step: Step,
}

/// The probe of a controller with registers `regs` and that core clock.
pub open spec fn probe_start(regs: Seq<RegFixed>, core: Option<CoreClock>) -> Result<
    Probe,
    ProbeError,
> {
    if regs.len() == 0 {
        Err(ProbeError::NoRegister)
    } else {
        Ok(
            Probe {
                address: regs[0].address,
                size: match regs[0].size {
                    Some(size) => size,
                    None => 0x1000,
                },
                core,
                step: Step::MapRegisters,
            },
        )
    }
}

/// Whether `event` can come of what a probe waits for.
pub open spec fn can_follow(step: Step, event: Event) -> bool {
    match step {
        Step::MapRegisters => event is Done || event is Refused,
        Step::FindClockDevice => event is Done || event is Refused,
        Step::GetClock => event is Done || event is Refused,
        Step::StoreClock => event is Done,
        Step::QueryClock => event is ClockKept,
        Step::UseExternalClock => event is Done,
        Step::Reset => event is Done || event is HostFailed,
        Step::SetPower => event is Done,
        Step::EnableInterrupts => event is Done,
        Step::InitCard => event is Card || event is HostFailed,
        Step::Register { .. } => event is Done,
        Step::Finished => false,
        Step::Failed(_) => false,
    }
}

/// The action that is due.
pub open spec fn due(probe: Probe) -> Option<Action> {
    match probe.step {
        Step::MapRegisters => Some(
            Action::MapRegisters { address: probe.address, size: probe.size },
        ),
        Step::FindClockDevice => Some(Action::FindClockDevice { phandle: probe.core->0.phandle }),
        Step::GetClock => Some(Action::GetClock),
        Step::StoreClock => Some(Action::StoreClock { id: probe.core->0.id }),
        Step::QueryClock => Some(Action::QueryClock),
        Step::UseExternalClock => Some(Action::UseExternalClock),
        Step::Reset => Some(Action::ResetAll),
        Step::SetPower => Some(Action::SetPower { power: SDHCI_POWER_330 }),
        Step::EnableInterrupts => Some(Action::EnableInterrupts),
        Step::InitCard => Some(Action::InitCard),
        Step::Register { capacity_blocks } => Some(Action::Register { capacity_blocks }),
        Step::Finished => None,
        Step::Failed(_) => None,
    }
}

/// What a probe waits for after `event`.
pub open spec fn next_step(probe: Probe, event: Event) -> Step {
    match (probe.step, event) {
        (Step::MapRegisters, Event::Done) => if probe.core is Some {
            Step::FindClockDevice
        } else {
            Step::QueryClock
        },
        (Step::MapRegisters, _) => Step::Failed(ProbeError::Unmapped),
        (Step::FindClockDevice, Event::Done) => Step::GetClock,
        (Step::FindClockDevice, _) => Step::Failed(
            ProbeError::NoClockDevice { phandle: probe.core->0.phandle },
        ),
        (Step::GetClock, Event::Done) => Step::StoreClock,
        (Step::GetClock, _) => Step::Failed(
            ProbeError::ClockNotRegistered { phandle: probe.core->0.phandle },
        ),
        (Step::StoreClock, _) => Step::QueryClock,
        (Step::QueryClock, Event::ClockKept(true)) => Step::UseExternalClock,
        (Step::QueryClock, _) => Step::Reset,
        (Step::UseExternalClock, _) => Step::Reset,
        (Step::Reset, Event::HostFailed(err)) => Step::Failed(
            ProbeError::Init { address: probe.address, size: probe.size, err },
        ),
        (Step::Reset, _) => Step::SetPower,
        (Step::SetPower, _) => Step::EnableInterrupts,
        (Step::EnableInterrupts, _) => Step::InitCard,
        (Step::InitCard, Event::HostFailed(err)) => Step::Failed(
            card_failure(probe.address, probe.size, err),
        ),
        (Step::InitCard, Event::Card(capacity)) => Step::Register {
            capacity_blocks: match capacity {
                Some(blocks) => blocks,
                None => 0,
            },
        },
        (Step::Register { .. }, _) => Step::Finished,
        (step, _) => step,
    }
}

impl Probe {
    /// Whether a probe that waits for a clock has one.
    pub open spec fn wf(self) -> bool {
        self.step is FindClockDevice || self.step is GetClock || self.step is StoreClock
            ==> self.core is Some
    }

    /// The probe of a controller with registers `regs` and that core clock.
    pub fn start(regs: &[RegFixed], core: Option<CoreClock>) -> (probe: Result<Probe, ProbeError>)
        ensures
            probe == probe_start(regs@, core),
            probe matches Ok(begun) ==> begun.wf(),
    {
        if regs.len() == 0 {
            return Err(ProbeError::NoRegister);
        }
        let size: u64 = match regs[0].size {
            Some(size) => size,
            None => DEFAULT_SIZE,
        };
        Ok(Probe { address: regs[0].address, size, core, step: Step::MapRegisters })
    }

    /// The action that is due, none once the probe is over.
    pub fn action(&self) -> (action: Option<Action>)
        requires
            self.wf(),
        ensures
            action == due(*self),
    {
        match self.step {
            Step::MapRegisters => Some(
                Action::MapRegisters { address: self.address, size: self.size },
            ),
            Step::FindClockDevice => match self.core {
                Some(core) => Some(Action::FindClockDevice { phandle: core.phandle }),
                None => None,
            },
            Step::GetClock => Some(Action::GetClock),
            Step::StoreClock => match self.core {
                Some(core) => Some(Action::StoreClock { id: core.id }),
                None => None,
            },
            Step::QueryClock => Some(Action::QueryClock),
            Step::UseExternalClock => Some(Action::UseExternalClock),
            Step::Reset => Some(Action::ResetAll),
            Step::SetPower => Some(Action::SetPower { power: SDHCI_POWER_330 }),
            Step::EnableInterrupts => Some(Action::EnableInterrupts),
            Step::InitCard => Some(Action::InitCard),
            Step::Register { capacity_blocks } => Some(Action::Register { capacity_blocks }),
            Step::Finished => None,
            Step::Failed(_) => None,
        }
    }

    /// Goes on after the action that was due.
    pub fn report(&mut self, event: Event)
        requires
            old(self).wf(),
            can_follow(old(self).step, event),
        ensures
            *final(self) == (Probe { step: next_step(*old(self), event), ..*old(self) }),
            final(self).wf(),
    {
        let phandle: u32 = match self.core {
            Some(core) => core.phandle,
            None => 0,
        };
        self.step = match (self.step, event) {
            (Step::MapRegisters, Event::Done) => if self.core.is_some() {
                Step::FindClockDevice
            } else {
                Step::QueryClock
            },
            (Step::MapRegisters, _) => Step::Failed(ProbeError::Unmapped),
            (Step::FindClockDevice, Event::Done) => Step::GetClock,
            (Step::FindClockDevice, _) => Step::Failed(ProbeError::NoClockDevice { phandle }),
            (Step::GetClock, Event::Done) => Step::StoreClock,
            (Step::GetClock, _) => Step::Failed(ProbeError::ClockNotRegistered { phandle }),
            (Step::StoreClock, _) => Step::QueryClock,
            (Step::QueryClock, Event::ClockKept(true)) => Step::UseExternalClock,
            (Step::QueryClock, _) => Step::Reset,
            (Step::UseExternalClock, _) => Step::Reset,
            (Step::Reset, Event::HostFailed(err)) => Step::Failed(
                init_error(self.address, self.size, err),
            ),
            (Step::Reset, _) => Step::SetPower,
            (Step::SetPower, _) => Step::EnableInterrupts,
            (Step::EnableInterrupts, _) => Step::InitCard,
            (Step::InitCard, Event::HostFailed(err)) => Step::Failed(
                card_init_error(self.address, self.size, err),
            ),
            (Step::InitCard, Event::Card(capacity)) => Step::Register {
                capacity_blocks: match capacity {
                    Some(blocks) => blocks,
                    None => 0,
                },
            },
            (Step::Register { .. }, _) => Step::Finished,
            (step, _) => step,
        };
    }
}

/// Starts the probe of the controller of `node`. None where its registers
/// cannot be decoded.
pub fn probe(node: &fdt_edit::NodeType<'_>) -> (probe: Option<Result<Probe, ProbeError>>)
    requires
        node_is_linked(*node),
    ensures
        probe is None <==> !is_decodable(*node),
        !node_properties(*node).dom().contains("reg"@) ==> probe == Some(
            Err::<Probe, ProbeError>(ProbeError::NoRegister),
        ),
        probe matches Some(begun) ==> begun == probe_start(
            node_regs(*node),
            core_clock_of(node_clocks(*node)),
        ),
        probe matches Some(Ok(begun)) ==> begun.wf(),
{
    match registers(node) {
        Some(regs) => Some(Probe::start(&regs, init_core_clock(node))),
        None => None,
    }
}

/// How many actions a probe can still take.
pub open spec fn steps_left(step: Step) -> nat {
    match step {
        Step::MapRegisters => 11,
        Step::FindClockDevice => 10,
        Step::GetClock => 9,
        Step::StoreClock => 8,
        Step::QueryClock => 7,
        Step::UseExternalClock => 6,
        Step::Reset => 5,
        Step::SetPower => 4,
        Step::EnableInterrupts => 3,
        Step::InitCard => 2,
        Step::Register { .. } => 1,
        Step::Finished => 0,
        Step::Failed(_) => 0,
    }
}

/// A probe comes to its end: every report leaves it with fewer actions, and
/// with none left it has finished or failed.
pub proof fn lemma_probe_ends(probe: Probe, event: Event)
    requires
        can_follow(probe.step, event),
    ensures
        steps_left(next_step(probe, event)) < steps_left(probe.step),
        due(probe) is Some,
        steps_left(probe.step) == 0 <==> due(probe) is None,
{
}

/// The state of a probe after the reports `events`.
pub open spec fn after_events(probe: Probe, events: Seq<Event>) -> Probe
    decreases events.len(),
{
    if events.len() == 0 {
        probe
    } else {
        let before = after_events(probe, events.drop_last());
        Probe { step: next_step(before, events.last()), ..before }
    }
}

/// Whether each of the reports `events` can come of what the probe waits for.
pub open spec fn can_happen(probe: Probe, events: Seq<Event>) -> bool
    decreases events.len(),
{
    events.len() == 0 || (can_happen(probe, events.drop_last()) && can_follow(
        after_events(probe, events.drop_last()).step,
        events.last(),
    ))
}

/// A block device is registered only with a card that has been initialized,
/// behind a host whose reset, supply and interrupts were seen to, and with the
/// capacity that the card told, 0 where it told none.
pub proof fn lemma_registered_card(probe: Probe, events: Seq<Event>)
    requires
        probe.step == Step::MapRegisters,
        can_happen(probe, events),
        after_events(probe, events).step is Register,
    ensures
        events.len() >= 6,
        events.last() is Card,
        after_events(probe, events).step == (Step::Register {
            capacity_blocks: match events.last()->Card_0 {
                Some(blocks) => blocks,
                None => 0,
            },
        }),
        events[events.len() - 2] == Event::Done,
        events[events.len() - 3] == Event::Done,
        events[events.len() - 4] == Event::Done,
        after_events(probe, events.take(events.len() - 1)).step == Step::InitCard,
        after_events(probe, events.take(events.len() - 2)).step == Step::EnableInterrupts,
        after_events(probe, events.take(events.len() - 3)).step == Step::SetPower,
        after_events(probe, events.take(events.len() - 4)).step == Step::Reset,
{
    reveal_with_fuel(after_events, 5);
    reveal_with_fuel(can_happen, 5);
    let n = events.len() as int;
    let e1 = events.drop_last();
    assert(e1 =~= events.take(n - 1));
    assert(after_events(probe, e1).step == Step::InitCard);
    let e2 = e1.drop_last();
    assert(e2 =~= events.take(n - 2));
    assert(after_events(probe, e2).step == Step::EnableInterrupts);
    let e3 = e2.drop_last();
    assert(e3 =~= events.take(n - 3));
    assert(after_events(probe, e3).step == Step::SetPower);
    let e4 = e3.drop_last();
    assert(e4 =~= events.take(n - 4));
    assert(after_events(probe, e4).step == Step::Reset);
    lemma_reset_after_mapping(probe, e4);
}

proof fn lemma_reset_after_mapping(probe: Probe, events: Seq<Event>)
    requires
        probe.step == Step::MapRegisters,
        can_happen(probe, events),
        after_events(probe, events).step == Step::Reset,
    ensures
        events.len() >= 2,
{
    reveal_with_fuel(after_events, 3);
    reveal_with_fuel(can_happen, 3);
    if events.len() == 1 {
        assert(events.drop_last().len() == 0);
    }
}

/// A controller is skipped exactly when the initialization of its card shows
/// that there is none; every other failure is told.
pub proof fn lemma_skipped_without_card(probe: Probe, event: Event)
    requires
        can_follow(probe.step, event),
    ensures
        next_step(probe, event) == Step::Failed(ProbeError::NotMatch) <==> probe.step
            == Step::InitCard && (event matches Event::HostFailed(err) && means_absent_card(err)),
{
}

} // verus!
