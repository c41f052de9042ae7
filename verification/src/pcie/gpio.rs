//! Lines of the GPIO banks.
//!
//! Each bank drives 32 lines. The level and the direction of the lines are in
//! two registers each, one for the lines below 16 and one for the others.
use super::error::ProbeError;
use crate::hiword::{
    bit_of, hiword_apply, hiword_bit, lemma_last_write_wins, lemma_single_bit, single_bit_word,
};
use vstd::prelude::*;

verus! {

/// Bytes of the registers of one bank.
pub const RK3588_GPIO_SIZE: usize = 0x110;

/// The level of the lines below 16.
pub const RK3588_GPIO_SWPORT_DR_L: usize = 0x00;

/// The level of the lines from 16 on.
pub const RK3588_GPIO_SWPORT_DR_H: usize = 0x04;

/// The direction of the lines below 16, set for an output.
pub const RK3588_GPIO_SWPORT_DDR_L: usize = 0x08;

/// The direction of the lines from 16 on, set for an output.
pub const RK3588_GPIO_SWPORT_DDR_H: usize = 0x0c;

/// The physical address of a bank's registers.
pub open spec fn bank_base(bank: u8) -> Option<u64> {
    if bank == 0 {
        Some(0xfd8a_0000)
    } else if 1 <= bank <= 4 {
        Some((0xfec1_0000 + bank * 0x1_0000) as u64)
    } else {
        None
    }
}

/// The physical address of a bank's registers, none where there is no such
/// bank.
pub fn gpio_base(bank: u8) -> (base: Option<u64>)
    ensures
        base == bank_base(bank),
{
    match bank {
        0 => Some(0xfd8a_0000),
        1 => Some(0xfec2_0000),
        2 => Some(0xfec3_0000),
        3 => Some(0xfec4_0000),
        4 => Some(0xfec5_0000),
        _ => None,
    }
}

/// A write to a register of a bank.
#[derive(Clone, Copy, Debug, PartialEq, Eq)]
pub struct RegisterWrite {
    pub offset: usize,
    pub value: u32,
}

/// The one of two registers that line `pin` is in.
pub open spec fn pin_register(low_offset: usize, high_offset: usize, pin: u8) -> usize {
    if pin < 16 {
        low_offset
    } else {
        high_offset
    }
}

/// The bit of line `pin` in its register.
pub open spec fn pin_bit(pin: u8) -> u32 {
    (pin % 16) as u32
}

/// The write that sets the bit of line `pin` in one of two registers.
pub open spec fn pin_write(
    low_offset: usize,
    high_offset: usize,
    pin: u8,
    level: bool,
) -> RegisterWrite {
    RegisterWrite {
        offset: pin_register(low_offset, high_offset, pin),
        value: hiword_bit(pin_bit(pin), level),
    }
}

/// The electrical level of a line that is logically `value`.
pub open spec fn physical_level(active_high: bool, value: bool) -> bool {
    value == active_high
}

/// The writes that drive line `pin` to `level`: the level first, and then the
/// direction, so that the line is never driven to another level.
pub open spec fn drive_writes(pin: u8, level: bool) -> Seq<RegisterWrite> {
    seq![
        pin_write(RK3588_GPIO_SWPORT_DR_L, RK3588_GPIO_SWPORT_DR_H, pin, level),
        pin_write(RK3588_GPIO_SWPORT_DDR_L, RK3588_GPIO_SWPORT_DDR_H, pin, true),
    ]
}

/// The write that sets the bit of line `pin` in one of two registers.
fn masked_pair(low_offset: usize, high_offset: usize, pin: u8, value: bool) -> (write:
    RegisterWrite)
    requires
        pin < 32,
    ensures
        write == pin_write(low_offset, high_offset, pin, value),
{
    if pin < 16 {
        RegisterWrite { offset: low_offset, value: single_bit_word(pin as u32, value) }
    } else {
        RegisterWrite { offset: high_offset, value: single_bit_word((pin - 16) as u32, value) }
    }
}

/// A GPIO line that switches something on.
#[derive(Clone, Copy, Debug, PartialEq, Eq)]
pub struct Rk3588GpioOutput {
    pub pin: u8,
    pub active_high: bool,
    /// The physical address of the bank's registers.
    pub base: u64,
}

impl Rk3588GpioOutput {
    /// The line `pin` of a bank.
    pub fn map(bank: u8, pin: u8, active_high: bool) -> (line: Result<Self, ProbeError>)
        ensures
            line == match bank_base(bank) {
                Some(base) => Ok::<Self, ProbeError>(Rk3588GpioOutput { pin, active_high, base }),
                None => Err(ProbeError::InvalidGpioBank(bank)),
            },
    {
        match gpio_base(bank) {
            Some(base) => Ok(Rk3588GpioOutput { pin, active_high, base }),
            None => Err(ProbeError::InvalidGpioBank(bank)),
        }
    }

    /// The writes that drive the line to the logical level `value`.
    pub fn set_logical(&self, value: bool) -> (writes: [RegisterWrite; 2])
        requires
            self.pin < 32,
        ensures
            writes@ == drive_writes(self.pin, physical_level(self.active_high, value)),
    {
        let physical = if self.active_high {
            value
        } else {
            !value
        };
        let writes = [
            self.write_masked_pair(RK3588_GPIO_SWPORT_DR_L, RK3588_GPIO_SWPORT_DR_H, physical),
            self.write_masked_pair(RK3588_GPIO_SWPORT_DDR_L, RK3588_GPIO_SWPORT_DDR_H, true),
        ];
        assert(writes@ =~= drive_writes(self.pin, physical_level(self.active_high, value)));
        writes
    }

    /// The write that sets the line's bit in one of two registers.
    pub fn write_masked_pair(&self, low_offset: usize, high_offset: usize, value: bool) -> (write:
        RegisterWrite)
        requires
            self.pin < 32,
        ensures
            write == pin_write(low_offset, high_offset, self.pin, value),
    {
        masked_pair(low_offset, high_offset, self.pin, value)
    }
}

/// A GPIO line that resets the slot of a PCIe host.
#[derive(Clone, Copy, Debug, PartialEq, Eq)]
pub struct Rk3588GpioReset {
    pub pin: u8,
    pub active_high: bool,
    /// The physical address of the bank's registers.
    pub base: u64,
}

impl Rk3588GpioReset {
    /// The line `pin` of a bank.
    pub fn map(_apb_phys: u64, bank: u8, pin: u8, active_high: bool) -> (line: Result<
        Self,
        ProbeError,
    >)
        ensures
            line == match bank_base(bank) {
                Some(base) => Ok::<Self, ProbeError>(Rk3588GpioReset { pin, active_high, base }),
                None => Err(ProbeError::InvalidGpioBank(bank)),
            },
    {
        match gpio_base(bank) {
            Some(base) => Ok(Rk3588GpioReset { pin, active_high, base }),
            None => Err(ProbeError::InvalidGpioBank(bank)),
        }
    }

    /// The writes that drive the line to the logical level `value`.
    pub fn set_logical(&self, value: bool) -> (writes: [RegisterWrite; 2])
        requires
            self.pin < 32,
        ensures
            writes@ == drive_writes(self.pin, physical_level(self.active_high, value)),
    {
        let physical = if self.active_high {
            value
        } else {
            !value
        };
        let writes = [
            self.write_masked_pair(RK3588_GPIO_SWPORT_DR_L, RK3588_GPIO_SWPORT_DR_H, physical),
            self.write_masked_pair(RK3588_GPIO_SWPORT_DDR_L, RK3588_GPIO_SWPORT_DDR_H, true),
        ];
        assert(writes@ =~= drive_writes(self.pin, physical_level(self.active_high, value)));
        writes
    }

    /// The write that sets the line's bit in one of two registers.
    pub fn write_masked_pair(&self, low_offset: usize, high_offset: usize, value: bool) -> (write:
        RegisterWrite)
        requires
            self.pin < 32,
        ensures
            write == pin_write(low_offset, high_offset, self.pin, value),
    {
        masked_pair(low_offset, high_offset, self.pin, value)
    }

    /// The writes that put the slot into reset.
    pub fn assert_perst(&self) -> (writes: [RegisterWrite; 2])
        requires
            self.pin < 32,
        ensures
            writes@ == drive_writes(self.pin, self.active_high),
    {
        self.set_logical(true)
    }

    /// The writes that take the slot out of reset.
    pub fn deassert_perst(&self) -> (writes: [RegisterWrite; 2])
        requires
            self.pin < 32,
        ensures
            writes@ == drive_writes(self.pin, !self.active_high),
    {
        self.set_logical(false)
    }
}

/// What the registers of a bank hold, by offset, after some writes.
pub open spec fn bank_after(
    registers: spec_fn(usize) -> u32,
    writes: Seq<RegisterWrite>,
) -> spec_fn(usize) -> u32
    decreases writes.len(),
{
    if writes.len() == 0 {
        registers
    } else {
        let before = bank_after(registers, writes.drop_last());
        let write = writes.last();
        |offset: usize|
            if offset == write.offset {
                hiword_apply(before(offset), write.value)
            } else {
                before(offset)
            }
    }
}

/// Whether line `pin` is at `level`.
pub open spec fn line_level(registers: spec_fn(usize) -> u32, pin: u8) -> bool {
    bit_of(
        registers(pin_register(RK3588_GPIO_SWPORT_DR_L, RK3588_GPIO_SWPORT_DR_H, pin)),
        pin_bit(pin),
    )
}

/// Whether line `pin` is an output.
pub open spec fn line_driven(registers: spec_fn(usize) -> u32, pin: u8) -> bool {
    bit_of(
        registers(pin_register(RK3588_GPIO_SWPORT_DDR_L, RK3588_GPIO_SWPORT_DDR_H, pin)),
        pin_bit(pin),
    )
}

/// Driving a line makes it an output at the level asked for, and leaves the
/// level and the direction of every other line as they were.
pub proof fn lemma_drive_line(registers: spec_fn(usize) -> u32, pin: u8, level: bool)
    requires
        pin < 32,
    ensures
        line_level(bank_after(registers, drive_writes(pin, level)), pin) == level,
        line_driven(bank_after(registers, drive_writes(pin, level)), pin),
        forall|other: u8|
            other < 32 && other != pin ==> #[trigger] line_level(
                bank_after(registers, drive_writes(pin, level)),
                other,
            ) == line_level(registers, other),
        forall|other: u8|
            other < 32 && other != pin ==> #[trigger] line_driven(
                bank_after(registers, drive_writes(pin, level)),
                other,
            ) == line_driven(registers, other),
{
    let writes = drive_writes(pin, level);
    assert(writes.drop_last() =~= seq![writes[0]]);
    assert(writes.drop_last().drop_last() =~= seq![]);
    reveal_with_fuel(bank_after, 3);
    let data = pin_register(RK3588_GPIO_SWPORT_DR_L, RK3588_GPIO_SWPORT_DR_H, pin);
    let direction = pin_register(RK3588_GPIO_SWPORT_DDR_L, RK3588_GPIO_SWPORT_DDR_H, pin);
    lemma_single_bit(registers(data), pin_bit(pin), level);
    lemma_single_bit(registers(direction), pin_bit(pin), true);
}

/// Taking a slot out of reset after putting it into reset leaves its line at
/// the inactive level, and the bank as if only the second had been done.
pub proof fn lemma_perst_released(registers: spec_fn(usize) -> u32, reset: Rk3588GpioReset)
    requires
        reset.pin < 32,
    ensures
        line_level(
            bank_after(
                bank_after(registers, drive_writes(reset.pin, reset.active_high)),
                drive_writes(reset.pin, !reset.active_high),
            ),
            reset.pin,
        ) == !reset.active_high,
        bank_after(
            bank_after(registers, drive_writes(reset.pin, reset.active_high)),
            drive_writes(reset.pin, !reset.active_high),
        ) =~= bank_after(registers, drive_writes(reset.pin, !reset.active_high)),
{
    let pin = reset.pin;
    let first = drive_writes(pin, reset.active_high);
    let second = drive_writes(pin, !reset.active_high);
    assert(first.drop_last() =~= seq![first[0]]);
    assert(first.drop_last().drop_last() =~= seq![]);
    assert(second.drop_last() =~= seq![second[0]]);
    assert(second.drop_last().drop_last() =~= seq![]);
    reveal_with_fuel(bank_after, 3);
    lemma_drive_line(bank_after(registers, first), pin, !reset.active_high);
    let data = pin_register(RK3588_GPIO_SWPORT_DR_L, RK3588_GPIO_SWPORT_DR_H, pin);
    let direction = pin_register(RK3588_GPIO_SWPORT_DDR_L, RK3588_GPIO_SWPORT_DDR_H, pin);
    lemma_last_write_wins(registers(data), pin_bit(pin), reset.active_high, !reset.active_high);
    lemma_last_write_wins(registers(direction), pin_bit(pin), true, true);
}

/// The bank that a phandle of the device tree stands for.
pub open spec fn phandle_bank(phandle: u32) -> Option<u8> {
    if 0xf8 <= phandle <= 0xfc {
        Some((phandle - 0xf8) as u8)
    } else if 0x104 <= phandle <= 0x108 {
        Some((phandle - 0x104) as u8)
    } else if phandle == 0x10e {
        Some(4)
    } else {
        None
    }
}

/// The bank that a phandle of the device tree stands for.
pub fn rk3588_gpio_bank_from_phandle(phandle: u32) -> (bank: Option<u8>)
    ensures
        bank == phandle_bank(phandle),
{
    match phandle {
        0xf8 | 0x104 => Some(0),
        0xf9 | 0x105 => Some(1),
        0xfa | 0x106 => Some(2),
        0xfb | 0x107 => Some(3),
        0xfc | 0x108 | 0x10e => Some(4),
        _ => None,
    }
}

/// Every phandle that stands for a bank stands for one that exists.
pub proof fn lemma_phandle_bank_exists(phandle: u32)
    ensures
        phandle_bank(phandle) matches Some(bank) ==> bank_base(bank) is Some,
{
}

} // verus!
