//! The clock that feeds the host.
use super::error::{clock_error, clock_failure, Error};
use crate::fdt::{clock_views, clocks, node_clocks, node_is_linked, Clock, ClockView};
use vstd::prelude::*;

verus! {

/// The clock of a host among those of its device.
#[derive(Clone, Copy, Debug, PartialEq, Eq, Structural)]
pub struct CoreClock {
    /// The device that the clock belongs to.
    pub phandle: u32,
    /// The number of the clock there.
    pub id: usize,
}

/// Whether `clock` is the one that feeds the host.
pub open spec fn is_core(clock: ClockView) -> bool {
    clock.name == Some("core"@)
}

/// The core clock as its device counts it; a device with one clock needs no
/// number.
pub open spec fn core_clock_from(clock: ClockView) -> CoreClock {
    CoreClock {
        phandle: clock.phandle,
        id: match clock.selected() {
            Some(id) => id as usize,
            None => 0,
        },
    }
}

/// The first of `clocks` that feeds the host.
pub open spec fn core_clock_of(clocks: Seq<ClockView>) -> Option<CoreClock>
    decreases clocks.len(),
{
    if clocks.len() == 0 {
        None
    } else if is_core(clocks[0]) {
        Some(core_clock_from(clocks[0]))
    } else {
        core_clock_of(clocks.drop_first())
    }
}

/// The first of `clocks` that feeds the host.
pub fn core_clock(clocks: &[Clock]) -> (core: Option<CoreClock>)
    ensures
        core == core_clock_of(clock_views(clocks@)),
{
    let ghost views = clock_views(clocks@);
    let mut i: usize = 0;
    assert(views.skip(0) =~= views);
    while i < clocks.len()
        invariant
            i <= clocks@.len(),
            views == clock_views(clocks@),
            core_clock_of(views) == core_clock_of(views.skip(i as int)),
        decreases clocks@.len() - i,
    {
        let clock = &clocks[i];
        assert(views.skip(i as int)[0] == clock@);
        if clock.is_named("core") {
            let id: usize = match clock.select() {
                Some(cell) => cell as usize,
                None => 0,
            };
            return Some(CoreClock { phandle: clock.phandle, id });
        }
        assert(views.skip(i as int).drop_first() =~= views.skip(i + 1));
        i = i + 1;
    }
    None
}

/// The clock of `node` that feeds the host.
pub fn init_core_clock(node: &fdt_edit::NodeType<'_>) -> (core: Option<CoreClock>)
    requires
        node_is_linked(*node),
    ensures
        core == core_clock_of(node_clocks(*node)),
{
    let list = clocks(node);
    core_clock(&list)
}

/// The core clock is the first that carries the name: the clock `i`, where none
/// before it does; and there is none where `i` is past the last.
pub proof fn lemma_core_clock_is_first(clocks: Seq<ClockView>, i: int)
    requires
        0 <= i <= clocks.len(),
        forall|k: int| 0 <= k < i ==> !is_core(#[trigger] clocks[k]),
        i < clocks.len() ==> is_core(clocks[i]),
    ensures
        core_clock_of(clocks) == if i < clocks.len() {
            Some(core_clock_from(clocks[i]))
        } else {
            None
        },
    decreases i,
{
    if i > 0 {
        let rest = clocks.drop_first();
        assert(!is_core(clocks[0]));
        assert forall|k: int| 0 <= k < i - 1 implies !is_core(#[trigger] rest[k]) by {
            assert(rest[k] == clocks[k + 1]);
        }
        lemma_core_clock_is_first(rest, i - 1);
    }
}

/// How far a change of the clock's rate has come.
#[derive(Clone, Copy, Debug, PartialEq, Eq, Structural)]
pub enum ClockEvent {
    /// It has been asked for.
    Requested,
    /// The clock's device has been locked.
    Locked,
    /// The rate has been set.
    RateSet,
    /// The rate has been read back.
    RateRead,
    /// What was to be done has failed.
    Failed,
}

/// What a change of the clock's rate takes next.
#[derive(Clone, Copy, Debug, PartialEq, Eq)]
pub enum ClockStep {
    /// Lock the clock's device.
    Lock,
    /// Set the rate.
    SetRate { hz: u64 },
    /// Read the rate back.
    ReadRate,
    /// Nothing: it is over.
    Finished(Result<(), Error>),
}

/// What a change of the clock's rate to `target_hz` takes after `event`.
pub open spec fn clock_step(target_hz: u32, event: ClockEvent) -> ClockStep {
    match event {
        ClockEvent::Requested => ClockStep::Lock,
        ClockEvent::Locked => ClockStep::SetRate { hz: target_hz as u64 },
        ClockEvent::RateSet => ClockStep::ReadRate,
        ClockEvent::RateRead => ClockStep::Finished(Ok(())),
        ClockEvent::Failed => ClockStep::Finished(Err(clock_failure())),
    }
}

/// What a change of the clock's rate to `target_hz` takes after `event`.
pub fn set_sdhci_clock(target_hz: u32, event: ClockEvent) -> (step: ClockStep)
    ensures
        step == clock_step(target_hz, event),
{
    match event {
        ClockEvent::Requested => ClockStep::Lock,
        ClockEvent::Locked => ClockStep::SetRate { hz: target_hz as u64 },
        ClockEvent::RateSet => ClockStep::ReadRate,
        ClockEvent::RateRead => ClockStep::Finished(Ok(())),
        ClockEvent::Failed => ClockStep::Finished(Err(clock_error())),
    }
}

/// How a change of the clock's rate goes on when `step` has worked or not.
pub open spec fn event_after(step: ClockStep, ok: bool) -> ClockEvent {
    if !ok {
        ClockEvent::Failed
    } else {
        match step {
            ClockStep::Lock => ClockEvent::Locked,
            ClockStep::SetRate { .. } => ClockEvent::RateSet,
            ClockStep::ReadRate => ClockEvent::RateRead,
            ClockStep::Finished(_) => ClockEvent::Requested,
        }
    }
}

/// How a change of the clock's rate ends, when its device locks, takes
/// the rate and gives it back, or does not.
pub open spec fn clock_outcome(target_hz: u32, locks: bool, sets: bool, reads: bool) -> ClockStep {
    let first = clock_step(target_hz, event_after(ClockStep::Lock, locks));
    if first is Finished {
        first
    } else {
        let second = clock_step(target_hz, event_after(first, sets));
        if second is Finished {
            second
        } else {
            clock_step(target_hz, event_after(second, reads))
        }
    }
}

/// A change of the clock's rate works exactly when its device can be locked
/// and takes the rate, and the rate can be read back; else the bus is said to
/// have failed during initialization.
pub proof fn lemma_clock_change(target_hz: u32, locks: bool, sets: bool, reads: bool)
    ensures
        clock_outcome(target_hz, locks, sets, reads) == ClockStep::Finished(
            if locks && sets && reads {
                Ok(())
            } else {
                Err(clock_failure())
            },
        ),
{
}

} // verus!
