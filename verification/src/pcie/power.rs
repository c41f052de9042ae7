//! Power: the power domain of the host, and the regulator of its slot.
use super::effects::{bank_address, lemma_regulator_on, only_drives};
use super::gpio::{
    bank_base, drive_writes, physical_level, RegisterWrite, Rk3588GpioOutput, RK3588_GPIO_SIZE,
};
use crate::guard::{closed, guarded, lemma_guarded_if_unneeding, needs, provided_at, Resource};
use crate::model::{after_actions, performed, Machine};
use crate::script::{
    plain, plain_instr, reaches, skipping, skipping_instr, successor, Action, Instr, OnFailure,
    Slot, Window,
};
use vstd::prelude::*;

verus! {

/// The power domain of the PCIe hosts.
pub const RK3588_PCIE_POWER_DOMAIN: usize = 34;

/// How long a regulator takes that does not say so, in milliseconds.
pub const RK3588_PCIE_POWER_STABLE_MS: u64 = 10;

/// The script that tries the power managers in their order until one has
/// switched the power domain on.
pub open spec fn power_domain_script(devices: int) -> Seq<Instr> {
    Seq::new(
        devices as nat,
        |i: int|
            Instr {
                action: Action::PowerOn { device: i as usize, domain: RK3588_PCIE_POWER_DOMAIN },
                on_success: (devices - 1 - i) as usize,
                on_failure: OnFailure::Continue,
            },
    )
}

/// The script that tries `devices` power managers in their order until one has
/// switched the power domain of the PCIe hosts on.
pub fn enable_pcie_power_domain(devices: usize) -> (script: Vec<Instr>)
    ensures
        script@ == power_domain_script(devices as int),
{
    let mut script: Vec<Instr> = Vec::new();
    let mut i: usize = 0;
    while i < devices
        invariant
            i <= devices,
            script@ == power_domain_script(devices as int).take(i as int),
        decreases devices - i,
    {
        script.push(
            Instr {
                action: Action::PowerOn { device: i, domain: RK3588_PCIE_POWER_DOMAIN },
                on_success: devices - 1 - i,
                on_failure: OnFailure::Continue,
            },
        );
        i = i + 1;
        assert(script@ =~= power_domain_script(devices as int).take(i as int));
    }
    assert(power_domain_script(devices as int).take(i as int) =~= power_domain_script(
        devices as int,
    ));
    script
}

/// A power manager is asked exactly if every one before it has failed, and the
/// script comes to its end however they answer.
pub proof fn lemma_power_domain_tries(devices: usize, ok: spec_fn(int) -> bool, to: int)
    requires
        0 <= to <= devices,
    ensures
        to < devices ==> (reaches(power_domain_script(devices as int), ok, 0, to) <==> forall|i: int|
            0 <= i < to ==> !#[trigger] ok(i)),
        reaches(power_domain_script(devices as int), ok, 0, devices as int),
{
    lemma_power_domain_from(devices, ok, 0, to);
    lemma_power_domain_from(devices, ok, 0, devices as int);
}

proof fn lemma_power_domain_from(devices: usize, ok: spec_fn(int) -> bool, from: int, to: int)
    requires
        0 <= from <= to <= devices,
    ensures
        to < devices ==> (reaches(power_domain_script(devices as int), ok, from, to) <==> forall|
            i: int,
        |
            from <= i < to ==> !#[trigger] ok(i)),
        to == devices ==> reaches(power_domain_script(devices as int), ok, from, to),
    decreases to - from,
{
    let script = power_domain_script(devices as int);
    if from < to {
        if ok(from) {
            assert(successor(script, from, true) == Some(devices as int));
            assert(reaches(script, ok, devices as int, to) <==> to == devices);
        } else {
            assert(successor(script, from, false) == Some(from + 1));
            lemma_power_domain_from(devices, ok, from + 1, to);
        }
    }
}

/// The script of the power domain uses nothing, and ends inside itself.
pub proof fn lemma_power_domain_guarded(devices: usize)
    ensures
        closed(power_domain_script(devices as int)),
        guarded(power_domain_script(devices as int)),
{
    lemma_guarded_if_unneeding(power_domain_script(devices as int));
}

/// The GPIO line of a regulator: its bank, its pin, whether it is active high,
/// and how long the regulator takes, in microseconds.
pub open spec fn regulator_gpio(phandle: u32) -> Option<(u8, u8, bool, u32)> {
    if phandle == 0x1c2 {
        Some((0, 14, true, 5_000))
    } else if phandle == 0x1c6 {
        Some((0, 21, true, 50_000))
    } else if phandle == 0x4a4 {
        Some((4, 20, false, 50_000))
    } else {
        None
    }
}

/// The GPIO line of a regulator: its bank, its pin, whether it is active high,
/// and how long the regulator takes, in microseconds.
pub fn fixed_regulator_gpio(regulator_phandle: u32) -> (gpio: Option<(u8, u8, bool, u32)>)
    ensures
        gpio == regulator_gpio(regulator_phandle),
{
    match regulator_phandle {
        // OrangePi-5-Plus: vcc3v3_pcie30, GPIO0_B6, active high, 5ms.
        0x1c2 => Some((0, 14, true, 5_000)),
        // OrangePi-5-Plus: vcc3v3_pcie2x1l0, GPIO0_C5, active high, 50ms.
        0x1c6 => Some((0, 21, true, 50_000)),
        // OrangePi-5-Plus: vcc3v3_pcie_eth, GPIO4_C4, active low, 50ms.
        0x4a4 => Some((4, 20, false, 50_000)),
        _ => None,
    }
}

/// The wait for a regulator: as long as it says, or a fixed time.
pub open spec fn startup_delay(startup_us: u32) -> Action {
    if startup_us != 0 {
        Action::DelayUs(startup_us as u64)
    } else {
        Action::DelayMs(RK3588_PCIE_POWER_STABLE_MS)
    }
}

/// A write to the GPIO bank of a regulator.
pub open spec fn gpio_write(write: RegisterWrite) -> Action {
    Action::Write { slot: Slot::Gpio, offset: write.offset, value: write.value }
}

/// The script that switches a regulator on and waits for it. Where its bank
/// cannot be mapped, nothing is done.
pub open spec fn regulator_script(
    bank: u8,
    pin: u8,
    active_high: bool,
    startup_us: u32,
) -> Seq<Instr> {
    match bank_base(bank) {
        Some(base) => {
            let writes = drive_writes(pin, physical_level(active_high, true));
            seq![
                skipping(
                    Action::MapWindow {
                        slot: Slot::Gpio,
                        window: Window { base, size: RK3588_GPIO_SIZE },
                    },
                    3,
                ),
                plain(gpio_write(writes[0])),
                plain(gpio_write(writes[1])),
                plain(startup_delay(startup_us)),
            ]
        },
        None => seq![],
    }
}

/// The script for the regulator that a phandle stands for; nothing for one
/// that is not known, or where there is none.
pub open spec fn supply_script(phandle: Option<u32>) -> Seq<Instr> {
    match phandle {
        Some(known) => match regulator_gpio(known) {
            Some((bank, pin, active_high, startup_us)) => regulator_script(
                bank,
                pin,
                active_high,
                startup_us,
            ),
            None => seq![],
        },
        None => seq![],
    }
}

/// The script that switches on the regulator of a GPIO line and waits for it.
pub fn switch_regulator_on(bank: u8, pin: u8, active_high: bool, startup_us: u32) -> (script: Vec<
    Instr,
>)
    requires
        pin < 32,
    ensures
        script@ == regulator_script(bank, pin, active_high, startup_us),
        bank <= 4 ==> forall|machine: Machine|
            only_drives(
                machine.registers,
                (#[trigger] after_actions(machine, performed(script@, 0))).registers,
                bank_address(bank),
                pin,
                active_high,
            ),
{
    let mut script: Vec<Instr> = Vec::new();
    match Rk3588GpioOutput::map(bank, pin, active_high) {
        Ok(gpio) => {
            let writes = gpio.set_logical(true);
            script.push(
                skipping_instr(
                    Action::MapWindow {
                        slot: Slot::Gpio,
                        window: Window { base: gpio.base, size: RK3588_GPIO_SIZE },
                    },
                    3,
                ),
            );
            script.push(
                plain_instr(
                    Action::Write {
                        slot: Slot::Gpio,
                        offset: writes[0].offset,
                        value: writes[0].value,
                    },
                ),
            );
            script.push(
                plain_instr(
                    Action::Write {
                        slot: Slot::Gpio,
                        offset: writes[1].offset,
                        value: writes[1].value,
                    },
                ),
            );
            if startup_us != 0 {
                script.push(plain_instr(Action::DelayUs(startup_us as u64)));
            } else {
                script.push(plain_instr(Action::DelayMs(RK3588_PCIE_POWER_STABLE_MS)));
            }
        },
        Err(_) => {},
    }
    assert(script@ =~= regulator_script(bank, pin, active_high, startup_us));
    proof {
        if bank <= 4 {
            assert forall|machine: Machine|
                only_drives(
                    machine.registers,
                    (#[trigger] after_actions(machine, performed(script@, 0))).registers,
                    bank_address(bank),
                    pin,
                    active_high,
                ) by {
                lemma_regulator_on(machine, bank, pin, active_high, startup_us);
            }
        }
    }
    script
}

/// The script that switches on the regulator that a phandle stands for, and
/// waits for it.
pub fn enable_fixed_regulator(phandle: Option<u32>) -> (script: Vec<Instr>)
    ensures
        script@ == supply_script(phandle),
{
    if let Some(known) = phandle {
        if let Some((bank, pin, active_high, startup_us)) = fixed_regulator_gpio(known) {
            return switch_regulator_on(bank, pin, active_high, startup_us);
        }
    }
    let script: Vec<Instr> = Vec::new();
    assert(script@ =~= supply_script(phandle));
    script
}

/// The script of a regulator writes only to the bank that it has mapped.
pub proof fn lemma_regulator_guarded(bank: u8, pin: u8, active_high: bool, startup_us: u32)
    ensures
        closed(regulator_script(bank, pin, active_high, startup_us)),
        guarded(regulator_script(bank, pin, active_high, startup_us)),
{
    let script = regulator_script(bank, pin, active_high, startup_us);
    assert forall|ok: spec_fn(int) -> bool, i: int, resource: Resource, bytes: int|
        0 <= i < script.len() && #[trigger] reaches(script, ok, 0, i) && #[trigger] needs(
            script[i].action,
            resource,
            bytes,
        ) implies exists|j: int| provided_at(script, ok, i, resource, bytes, j) by {
        reveal_with_fuel(reaches, 5);
        assert(1 <= i <= 2);
        assert(provided_at(script, ok, i, resource, bytes, 0));
    }
}

/// The script of a supply writes only to the bank that it has mapped.
pub proof fn lemma_supply_guarded(phandle: Option<u32>)
    ensures
        closed(supply_script(phandle)),
        guarded(supply_script(phandle)),
{
    if let Some(known) = phandle {
        if let Some((bank, pin, active_high, startup_us)) = regulator_gpio(known) {
            lemma_regulator_guarded(bank, pin, active_high, startup_us);
        }
    }
}

} // verus!
