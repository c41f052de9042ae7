//! Running the scripts of the PCIe host.
use rk3588_drivers::fdt::{Clock, PciRange, PciSpace, RegFixed};
use rk3588_drivers::pcie::clock::{enable_clock_id, enable_pcie_clocks};
use rk3588_drivers::pcie::error::ProbeError;
use rk3588_drivers::pcie::gpio::Rk3588GpioReset;
use rk3588_drivers::pcie::phy::{
    enable_combphy_clocks, prepare_pcie_phy, rk3588_combphy_config_pcie, rk3588_naneng_combphy,
};
use rk3588_drivers::pcie::power::{
    enable_fixed_regulator, enable_pcie_power_domain, switch_regulator_on,
};
use rk3588_drivers::pcie::probe::{
    plan_host, rk3588_pcie_pre_dbi_bring_up, PcieNode,
};
use rk3588_drivers::pcie::reset::{assert_resets, deassert_resets, push_assert, push_deassert};
use rk3588_drivers::script::{
    Action, HostConfig, IatuMode, Instr, OnFailure, Runner, Slot, Window,
};

/// Runs a script and returns the actions that came due.
fn run(script: Vec<Instr>, ok: impl Fn(&Action) -> bool) -> (Vec<Action>, Runner) {
    let mut runner = Runner::new(script);
    let mut actions = Vec::new();
    while let Some(action) = runner.action() {
        actions.push(action);
        runner.report(ok(&action));
    }
    (actions, runner)
}

fn maps(slot: Slot) -> impl Fn(&Action) -> bool {
    move |action| matches!(action, Action::MapWindow { slot: mapped, .. } if *mapped == slot)
}

fn node() -> PcieNode {
    PcieNode {
        regs: vec![
            RegFixed {
                address: 0xfe18_0000,
                size: None,
            },
            RegFixed {
                address: 0xa_4000_0000,
                size: None,
            },
            RegFixed {
                address: 0xf300_0000,
                size: Some(0x10_0000),
            },
        ],
        ranges: vec![PciRange {
            space: PciSpace::Memory32,
            bus_address: 0xf320_0000,
            cpu_address: 0xf320_0000,
            size: 0xe0_0000,
            prefetchable: false,
        }],
        bus_range: Some((0x30, 0x3f)),
        reset_gpios: None,
        supply: Some(0x1c6),
        resets: vec![0x20d, 0x999_9999],
        clocks: vec![Clock {
            name: Some("pclk".to_string()),
            phandle: 2,
            cells: 1,
            specifier: vec![1],
        }],
        phys: vec![0x1c5, 2],
    }
}

#[test]
fn power_managers_are_asked_until_one_obeys() {
    let script = enable_pcie_power_domain(3);
    let asked = |device| Action::PowerOn { device, domain: 34 };
    let (actions, _) = run(script.clone(), |action| *action == asked(1));
    assert_eq!(actions, vec![asked(0), asked(1)]);
    let (actions, runner) = run(script, |_| false);
    assert_eq!(actions, vec![asked(0), asked(1), asked(2)]);
    assert_eq!(runner.failed_action(), None);
    assert_eq!(enable_pcie_power_domain(0), vec![]);
}

#[test]
fn regulator_is_switched_on() {
    let (actions, _) = run(enable_fixed_regulator(Some(0x1c6)), |_| true);
    assert_eq!(
        actions,
        vec![
            Action::MapWindow {
                slot: Slot::Gpio,
                window: Window {
                    base: 0xfd8a_0000,
                    size: 0x110
                }
            },
            Action::Write {
                slot: Slot::Gpio,
                offset: 4,
                value: 0x0020_0020
            },
            Action::Write {
                slot: Slot::Gpio,
                offset: 0xc,
                value: 0x0020_0020
            },
            Action::DelayUs(50_000),
        ]
    );
}

#[test]
fn regulator_that_cannot_be_mapped_is_left() {
    let (actions, runner) = run(enable_fixed_regulator(Some(0x1c6)), |_| false);
    assert_eq!(actions.len(), 1);
    assert_eq!(runner.failed_action(), None);
    assert_eq!(enable_fixed_regulator(None), vec![]);
    assert_eq!(enable_fixed_regulator(Some(5)), vec![]);
}

#[test]
fn regulator_without_startup_time() {
    let script = switch_regulator_on(0, 1, true, 0);
    assert_eq!(script[3].action, Action::DelayMs(10));
    assert_eq!(switch_regulator_on(7, 1, true, 0), vec![]);
}

#[test]
fn unknown_resets_are_passed_over() {
    let script = assert_resets(&[0x20d, 0x999_9999]);
    let (actions, _) = run(script, |_| true);
    assert_eq!(
        actions,
        vec![
            Action::MapWindow {
                slot: Slot::Cru,
                window: Window {
                    base: 0xfd7c_0000,
                    size: 0x5c000
                }
            },
            Action::Write {
                slot: Slot::Cru,
                offset: 0xa80,
                value: 0x2000_2000
            },
        ]
    );
    let (actions, _) = run(deassert_resets(&[0x20d]), |_| true);
    assert_eq!(
        actions[1],
        Action::Write {
            slot: Slot::Cru,
            offset: 0xa80,
            value: 0x2000_0000
        }
    );
    let (actions, _) = run(assert_resets(&[0x20d, 0x20e]), |_| false);
    assert_eq!(actions.len(), 2);
    let mut script = Vec::new();
    push_assert(&mut script, 0x20d);
    push_deassert(&mut script, 0x20d);
    assert_eq!(script[..2], assert_resets(&[0x20d])[..]);
    assert_eq!(script[2..], deassert_resets(&[0x20d])[..]);
}

#[test]
fn clocks_are_enabled_by_name_or_cell() {
    let clock = |name: Option<&str>, cells, cell| Clock {
        name: name.map(|text| text.to_string()),
        phandle: 2,
        cells,
        specifier: vec![cell],
    };
    let clocks = [
        clock(Some("pclk"), 1, 5),
        clock(Some("other"), 1, 6),
        clock(None, 0, 7),
    ];
    let (actions, _) = run(enable_pcie_clocks(0xfe18_0000, &clocks), |_| true);
    let acquire = Action::AcquireClock { phandle: 2 };
    let rate = |rate| Action::SetRate { clock: 0, rate };
    assert_eq!(
        actions,
        vec![
            acquire,
            rate(333),
            Action::PeripheralEnable,
            acquire,
            rate(6),
            Action::PeripheralEnable,
            acquire,
        ]
    );
    // A refused rate does not keep the peripheral clocks off.
    let (actions, _) = run(enable_pcie_clocks(0xfe18_0000, &clocks[..1]), |action| {
        *action == acquire
    });
    assert_eq!(actions.len(), 3);
    // Without the device nothing is set.
    let (actions, _) = run(enable_pcie_clocks(0xfe18_0000, &clocks), |_| false);
    assert_eq!(actions, vec![acquire, acquire, acquire]);
}

#[test]
fn clock_of_the_unit() {
    let mut script = Vec::new();
    enable_clock_id(&mut script, 377);
    let (actions, _) = run(script.clone(), |_| true);
    assert_eq!(
        actions,
        vec![
            Action::AcquireClock { phandle: 2 },
            Action::SetRate {
                clock: 0,
                rate: 377
            }
        ]
    );
    let (actions, _) = run(script, |_| false);
    assert_eq!(actions.len(), 1);
}

#[test]
fn phy_clocks() {
    let rates = |phandle| {
        let mut script = Vec::new();
        enable_combphy_clocks(&mut script, rk3588_naneng_combphy(phandle).unwrap());
        script
            .into_iter()
            .filter_map(|instr| match instr.action {
                Action::SetRate { rate, .. } => Some(rate),
                _ => None,
            })
            .collect::<Vec<u64>>()
    };
    assert_eq!(rates(0x110), vec![374, 377, 340, 364, 367]);
    assert_eq!(rates(0x1c5), vec![375, 377, 341, 365, 368]);
    assert_eq!(rates(0x71), vec![376, 377, 342, 366, 369]);
    let mut unknown = rk3588_naneng_combphy(0x71).unwrap();
    unknown.id = 3;
    let mut script = Vec::new();
    enable_combphy_clocks(&mut script, unknown);
    assert_eq!(script, vec![]);
}

#[test]
fn phy_settings() {
    let mut script = Vec::new();
    rk3588_combphy_config_pcie(
        &mut script,
        0xfe19_0000,
        rk3588_naneng_combphy(0x71).unwrap(),
    );
    let (actions, _) = run(script.clone(), |_| true);
    let grf = |offset, value| Action::Write {
        slot: Slot::PhyGrf,
        offset,
        value,
    };
    let phy = |offset, value| Action::Write {
        slot: Slot::Phy,
        offset,
        value,
    };
    assert_eq!(
        actions[3..],
        [
            grf(0, 0xffff_1000),
            grf(4, 0xffff_0000),
            grf(8, 0xffff_0101),
            grf(0xc, 0xffff_0200),
            Action::Write {
                slot: Slot::PipeGrf,
                offset: 0x100,
                value: 0x0002_0000
            },
            grf(4, 0x6000_4000),
            Action::Update {
                slot: Slot::Phy,
                offset: 0x80,
                mask: 0x1c,
                value: 0x10
            },
            phy(0x2c, 4),
            phy(0x6c, 0x4c),
            phy(0x28, 0xf0),
        ]
    );
    let (actions, runner) = run(script, |action| !maps(Slot::Phy)(action));
    assert_eq!(actions.len(), 3);
    assert!(maps(Slot::Phy)(&runner.failed_action().unwrap()));
}

#[test]
fn phys_that_are_not_prepared() {
    assert_eq!(prepare_pcie_phy(&[], 0), vec![]);
    assert_eq!(prepare_pcie_phy(&[0x71, 4], 0), vec![]);
    assert_eq!(prepare_pcie_phy(&[0x70, 2], 0), vec![]);
    assert_eq!(prepare_pcie_phy(&[0x71], 0), prepare_pcie_phy(&[0x71, 2], 0));
    let script = prepare_pcie_phy(&[0x71], 0);
    assert_eq!(script.last().unwrap().action, Action::DelayMs(20));
}

#[test]
fn resets_stay_asserted_without_the_phy() {
    let script = rk3588_pcie_pre_dbi_bring_up(&node(), 0xfe18_0000, 0);
    let released = Action::Write {
        slot: Slot::Cru,
        offset: 0xa80,
        value: 0x2000_0000,
    };
    let (actions, _) = run(script.clone(), |_| true);
    assert!(actions.contains(&released));
    let (actions, runner) = run(script, |action| !maps(Slot::PhyGrf)(action));
    assert!(!actions.contains(&released));
    assert!(runner.failed_action().is_some());
}

#[test]
fn host_comes_up() {
    let script = plan_host(&node(), 1).unwrap();
    let (actions, runner) = run(script, |_| true);
    assert_eq!(runner.failed_action(), None);
    assert_eq!(actions.last(), Some(&Action::RegisterController));
    let start = Action::StartHost {
        config: HostConfig {
            apb_phys: 0xfe18_0000,
            cfg_phys: 0xf300_0000,
            cfg_size: 0x10_0000,
            bus_base: 0x30,
            logical_bus_end: 0xf,
            iatu_mode: IatuMode::Unroll,
        },
        perst: Some(Rk3588GpioReset {
            pin: 11,
            active_high: true,
            base: 0xfec4_0000,
        }),
    };
    let at = actions.iter().position(|action| *action == start).unwrap();
    assert_eq!(
        actions[at - 3..at],
        [
            Action::MapWindow {
                slot: Slot::Apb,
                window: Window {
                    base: 0xfe18_0000,
                    size: 0x1_0000
                }
            },
            Action::MapWindow {
                slot: Slot::Dbi,
                window: Window {
                    base: 0xa_4000_0000,
                    size: 0x40_0000
                }
            },
            Action::MapWindow {
                slot: Slot::Cfg,
                window: Window {
                    base: 0xf300_0000,
                    size: 0x10_0000
                }
            },
        ]
    );
    assert!(matches!(
        actions[at + 1],
        Action::ProgramWindow { region: 1, .. }
    ));
    assert_eq!(actions[at + 2], Action::UnmaskLegacyIntx);
    assert_eq!(
        actions[at + 3],
        Action::RegisterLegacyIrq {
            logical_bus_end: 0xf
        }
    );
    assert!(matches!(
        actions[at + 4],
        Action::SetBarRange { mem64: true, .. }
    ));
}

#[test]
fn host_comes_up_without_its_reset_line() {
    let script = plan_host(&node(), 1).unwrap();
    let (actions, _) = run(script, |action| !maps(Slot::Perst)(action));
    assert!(actions
        .iter()
        .any(|action| matches!(action, Action::StartHost { perst: None, .. })));
    assert_eq!(actions.last(), Some(&Action::RegisterController));
}

#[test]
fn host_without_its_windows_is_not_announced() {
    for slot in [Slot::Apb, Slot::Dbi, Slot::Cfg] {
        let script = plan_host(&node(), 1).unwrap();
        let (actions, runner) = run(script, |action| !maps(slot)(action));
        assert!(maps(slot)(actions.last().unwrap()));
        assert_eq!(runner.failed_action().as_ref(), actions.last());
    }
    let script = plan_host(&node(), 1).unwrap();
    let (actions, _) = run(script, |action| {
        !matches!(action, Action::StartHost { .. })
    });
    assert!(matches!(
        actions.last(),
        Some(Action::StartHost { .. })
    ));
}

#[test]
fn accesses_lie_in_mapped_windows() {
    let script = plan_host(&node(), 2).unwrap();
    for failing in 0..script.len() {
        let mut runner = Runner::new(script.clone());
        let mut windows: Vec<(Slot, usize)> = Vec::new();
        let mut step = 0;
        while let Some(action) = runner.action() {
            let ok = step != failing;
            match action {
                Action::MapWindow { slot, window } if ok => windows.push((slot, window.size)),
                Action::Write { slot, offset, .. } | Action::Update { slot, offset, .. } => {
                    let (_, size) = windows.iter().rev().find(|(s, _)| *s == slot).unwrap();
                    assert!(offset + 4 <= *size);
                    assert_eq!(offset % 4, 0);
                }
                _ => {}
            }
            runner.report(ok);
            step += 1;
        }
    }
}

#[test]
fn nodes_that_make_no_host() {
    let mut bare = node();
    bare.regs.truncate(2);
    assert_eq!(plan_host(&bare, 0), Err(ProbeError::NoConfigWindow));
    bare.regs.truncate(1);
    assert_eq!(plan_host(&bare, 0), Err(ProbeError::NoDbiRegister));
    bare.regs.clear();
    assert_eq!(plan_host(&bare, 0), Err(ProbeError::NoApbRegister));
}

#[test]
fn runner_skips_and_aborts() {
    let instr = |us, on_success, on_failure| Instr {
        action: Action::DelayUs(us),
        on_success,
        on_failure,
    };
    let script = vec![
        instr(0, 1, OnFailure::Skip(2)),
        instr(1, 0, OnFailure::Continue),
        instr(2, 0, OnFailure::Continue),
        instr(3, 9, OnFailure::Abort),
        instr(4, 0, OnFailure::Continue),
    ];
    let (actions, runner) = run(script.clone(), |_| true);
    assert_eq!(
        actions,
        vec![
            Action::DelayUs(0),
            Action::DelayUs(2),
            Action::DelayUs(3)
        ]
    );
    assert_eq!(runner.failed_action(), None);
    let (actions, runner) = run(script, |_| false);
    assert_eq!(actions, vec![Action::DelayUs(0), Action::DelayUs(3)]);
    assert_eq!(runner.failed_action(), Some(Action::DelayUs(3)));
}
