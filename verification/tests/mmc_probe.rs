//! Probing an SD/MMC controller.
use rk3588_drivers::fdt::RegFixed;
use rk3588_drivers::mmc::clock::{set_sdhci_clock, ClockEvent, ClockStep, CoreClock};
use rk3588_drivers::mmc::error::{
    card_init_error, clock_error, init_error, is_absent_card_init_error, CardError, Error,
    ErrorContext, Phase, ProbeError,
};
use rk3588_drivers::mmc::probe::{Action, Event, Probe, Step};

const REG: RegFixed = RegFixed {
    address: 0xfe2e_0000,
    size: Some(0x1_0000),
};

const CORE: CoreClock = CoreClock { phandle: 2, id: 44 };

fn at_command(phase: Phase) -> ErrorContext {
    ErrorContext {
        phase,
        cmd: Some(8),
    }
}

fn failure(err: Error) -> Step {
    Step::Failed(ProbeError::Init {
        address: 0xfe2e_0000,
        size: 0x1_0000,
        err,
    })
}

/// Feeds a probe and returns the actions that came due.
fn walk(probe: &mut Probe, events: &[Event]) -> Vec<Action> {
    let mut actions = Vec::new();
    for event in events {
        actions.push(probe.action().unwrap());
        probe.report(*event);
    }
    actions
}

#[test]
fn controller_without_registers() {
    assert_eq!(Probe::start(&[], None), Err(ProbeError::NoRegister));
}

#[test]
fn controller_with_core_clock() {
    let mut probe = Probe::start(&[REG], Some(CORE)).unwrap();
    let actions = walk(
        &mut probe,
        &[
            Event::Done,
            Event::Done,
            Event::Done,
            Event::Done,
            Event::ClockKept(true),
            Event::Done,
            Event::Done,
            Event::Done,
            Event::Done,
            Event::Card(Some(77)),
            Event::Done,
        ],
    );
    assert_eq!(
        actions,
        vec![
            Action::MapRegisters {
                address: 0xfe2e_0000,
                size: 0x1_0000
            },
            Action::FindClockDevice { phandle: 2 },
            Action::GetClock,
            Action::StoreClock { id: 44 },
            Action::QueryClock,
            Action::UseExternalClock,
            Action::ResetAll,
            Action::SetPower { power: 0x0e },
            Action::EnableInterrupts,
            Action::InitCard,
            Action::Register {
                capacity_blocks: 77
            },
        ]
    );
    assert_eq!(probe.step, Step::Finished);
    assert_eq!(probe.action(), None);
}

#[test]
fn controller_without_core_clock() {
    let mut probe = Probe::start(&[REG], None).unwrap();
    let actions = walk(
        &mut probe,
        &[
            Event::Done,
            Event::ClockKept(false),
            Event::Done,
            Event::Done,
            Event::Done,
            Event::Card(None),
        ],
    );
    assert_eq!(actions[1], Action::QueryClock);
    assert_eq!(actions[2], Action::ResetAll);
    assert_eq!(probe.step, Step::Register { capacity_blocks: 0 });
}

#[test]
fn registers_that_cannot_be_mapped() {
    let mut probe = Probe::start(&[REG], None).unwrap();
    walk(&mut probe, &[Event::Refused]);
    assert_eq!(probe.step, Step::Failed(ProbeError::Unmapped));
    assert_eq!(probe.action(), None);
}

#[test]
fn clock_that_is_not_to_be_had() {
    let mut probe = Probe::start(&[REG], Some(CORE)).unwrap();
    walk(&mut probe, &[Event::Done, Event::Refused]);
    assert_eq!(
        probe.step,
        Step::Failed(ProbeError::NoClockDevice { phandle: 2 })
    );
    let mut probe = Probe::start(&[REG], Some(CORE)).unwrap();
    walk(&mut probe, &[Event::Done, Event::Done, Event::Refused]);
    assert_eq!(
        probe.step,
        Step::Failed(ProbeError::ClockNotRegistered { phandle: 2 })
    );
}

#[test]
fn host_that_does_not_reset() {
    let mut probe = Probe::start(&[REG], None).unwrap();
    walk(
        &mut probe,
        &[
            Event::Done,
            Event::ClockKept(false),
            Event::HostFailed(Error::NoCard),
        ],
    );
    assert_eq!(probe.step, failure(Error::NoCard));
}

#[test]
fn slot_without_card_is_skipped() {
    let start = [
        Event::Done,
        Event::ClockKept(false),
        Event::Done,
        Event::Done,
        Event::Done,
    ];
    let mut probe = Probe::start(&[REG], None).unwrap();
    walk(&mut probe, &start);
    probe.report(Event::HostFailed(Error::Timeout(at_command(
        Phase::ResponseWait,
    ))));
    assert_eq!(probe.step, Step::Failed(ProbeError::NotMatch));
    let mut probe = Probe::start(&[REG], None).unwrap();
    walk(&mut probe, &start);
    probe.report(Event::HostFailed(Error::CardLocked));
    assert_eq!(probe.step, failure(Error::CardLocked));
}

#[test]
fn errors_that_mean_an_absent_card() {
    assert!(is_absent_card_init_error(Error::NoCard));
    for phase in [Phase::CommandSend, Phase::ResponseWait, Phase::Init] {
        assert!(is_absent_card_init_error(Error::Timeout(at_command(phase))));
        assert!(is_absent_card_init_error(Error::Crc(at_command(phase))));
        assert!(is_absent_card_init_error(Error::BadResponse(at_command(
            phase
        ))));
        assert!(!is_absent_card_init_error(Error::BusError(at_command(
            phase
        ))));
        assert!(!is_absent_card_init_error(Error::Timeout(ErrorContext {
            phase,
            cmd: None
        })));
    }
    for phase in [
        Phase::Unspecified,
        Phase::DataWrite,
        Phase::DataRead,
        Phase::BusyWait,
        Phase::Switch,
        Phase::Erase,
    ] {
        assert!(!is_absent_card_init_error(Error::Timeout(at_command(
            phase
        ))));
    }
    assert!(!is_absent_card_init_error(Error::CardError(
        CardError::IllegalCommand
    )));
}

#[test]
fn failures_of_a_probe() {
    assert_eq!(
        init_error(1, 2, Error::NoCard),
        ProbeError::Init {
            address: 1,
            size: 2,
            err: Error::NoCard
        }
    );
    assert_eq!(card_init_error(1, 2, Error::NoCard), ProbeError::NotMatch);
    assert_eq!(
        card_init_error(1, 2, clock_error()),
        init_error(1, 2, clock_error())
    );
}

#[test]
fn clock_rate_changes() {
    let hz = 400_000;
    assert_eq!(set_sdhci_clock(hz, ClockEvent::Requested), ClockStep::Lock);
    assert_eq!(
        set_sdhci_clock(hz, ClockEvent::Locked),
        ClockStep::SetRate { hz: 400_000 }
    );
    assert_eq!(
        set_sdhci_clock(hz, ClockEvent::RateSet),
        ClockStep::ReadRate
    );
    assert_eq!(
        set_sdhci_clock(hz, ClockEvent::RateRead),
        ClockStep::Finished(Ok(()))
    );
    assert_eq!(
        set_sdhci_clock(hz, ClockEvent::Failed),
        ClockStep::Finished(Err(Error::BusError(ErrorContext {
            phase: Phase::Init,
            cmd: None
        })))
    );
}
