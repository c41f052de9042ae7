//! What the drivers promise as a whole, on modelled registers.
use std::collections::HashMap;

use rk3588_drivers::hiword::{field_word, mmio_update32, single_bit_word};
use rk3588_drivers::mmc::block::block_addr_of;
use rk3588_drivers::mmc::error::{BlkError, Error, ErrorContext, Phase};
use rk3588_drivers::mmc::queue::{BlockDevice, Request, RequestId, RequestKind, Stage};
use rk3588_drivers::pcie::clock::controller_clock_id;
use rk3588_drivers::pcie::gpio::{
    gpio_base, rk3588_gpio_bank_from_phandle, RegisterWrite, Rk3588GpioOutput, Rk3588GpioReset,
};
use rk3588_drivers::pcie::phy::{rk3588_combphy_config_pcie, rk3588_naneng_combphy};
use rk3588_drivers::pcie::reset::{assert_reset_id, deassert_reset_id, ResetWrite};
use rk3588_drivers::script::{Action, Slot};

/// What a register with write enables holds after a write.
fn apply(before: u32, word: u32) -> u32 {
    (before & !(word >> 16)) | (word & (word >> 16))
}

fn perform(bank: &mut [u32; 4], writes: [RegisterWrite; 2]) {
    for write in writes {
        let register = &mut bank[write.offset / 4];
        *register = apply(*register, write.value);
    }
}

#[test]
fn single_bit_writes_change_one_bit() {
    for before in [0, 0xffff, 0xa5a5] {
        for bit in 0..16 {
            let set = apply(before, single_bit_word(bit, true));
            let cleared = apply(before, single_bit_word(bit, false));
            assert_eq!(set, before | 1 << bit);
            assert_eq!(cleared, before & !(1 << bit));
            assert_eq!(apply(set, single_bit_word(bit, false)), cleared);
        }
    }
}

#[test]
fn field_writes_change_one_field() {
    assert_eq!(apply(0xffff, field_word(7, 4, 0x3)), 0xff3f);
    assert_eq!(apply(0x0000, field_word(14, 13, 0x2)), 0x4000);
}

#[test]
fn updates_are_done_once() {
    let once = mmio_update32(0x1234_5678, 0xff00, 0xabcd);
    assert_eq!(once, 0x1234_ab78);
    assert_eq!(mmio_update32(once, 0xff00, 0xabcd), once);
}

#[test]
fn lines_are_driven_alone() {
    for pin in 0..32u8 {
        let mut bank = [0xa5a5; 4];
        let line = Rk3588GpioOutput::map(2, pin, true).unwrap();
        perform(&mut bank, line.set_logical(true));
        let register = usize::from(pin / 16);
        let bit = 1 << (pin % 16);
        assert_eq!(bank[register], 0xa5a5 | bit);
        assert_eq!(bank[register + 2], 0xa5a5 | bit);
        assert_eq!(bank[1 - register], 0xa5a5);
        assert_eq!(bank[3 - register], 0xa5a5);
    }
}

#[test]
fn released_slots_are_as_if_never_reset() {
    let line = Rk3588GpioReset::map(0xfe19_0000, 4, 2, true).unwrap();
    let mut once = [0xffff; 4];
    perform(&mut once, line.deassert_perst());
    let mut twice = [0xffff; 4];
    perform(&mut twice, line.assert_perst());
    perform(&mut twice, line.deassert_perst());
    assert_eq!(once, twice);
    assert_eq!(once[0] & 1 << 2, 0);
}

#[test]
fn phandles_name_banks_that_exist() {
    let known: Vec<u8> = (0..0x200)
        .filter_map(rk3588_gpio_bank_from_phandle)
        .collect();
    assert_eq!(known.len(), 11);
    assert!(known.into_iter().all(|bank| gpio_base(bank).is_some()));
}

#[test]
fn resets_are_asserted_and_released_alone() {
    let mut registers: HashMap<u64, u32> = HashMap::new();
    let mut perform = |write: Option<ResetWrite>| {
        if let Some(write) = write {
            let register = registers
                .entry(write.window.base + write.offset as u64)
                .or_insert(0);
            *register = apply(*register, write.value);
        }
        registers.clone()
    };
    perform(assert_reset_id(0x4d6));
    let held = perform(assert_reset_id(0x20005));
    assert_eq!(held[&0xfd7c_0b34], 0x40);
    assert_eq!(held[&0xfd7c_8a00], 0x20);
    let held = perform(assert_reset_id(0x4d7));
    assert_eq!(held[&0xfd7c_0b34], 0xc0);
    let held = perform(deassert_reset_id(0x4d6));
    assert_eq!(held[&0xfd7c_0b34], 0x80);
    assert_eq!(held[&0xfd7c_8a00], 0x20);
}

#[test]
fn resets_have_places_of_their_own() {
    let mut places = HashMap::new();
    for id in (0..0x1_0000).chain(0x20005..=0x20007) {
        let write = assert_reset_id(id).unwrap();
        assert!(write.offset + 4 <= write.window.size);
        let place = (write.window.base + write.offset as u64, write.value);
        assert_eq!(places.insert(place, id), None);
    }
}

#[test]
fn controller_clocks_are_distinct() {
    let mut ids = Vec::new();
    for base in [0xfe15_0000, 0xfe18_0000, 0xfe19_0000] {
        for name in ["aclk_mst", "aclk_slv", "aclk_dbi", "pclk", "aux", "pipe"] {
            ids.push(controller_clock_id(base, Some(name)).unwrap());
        }
    }
    ids.sort();
    ids.dedup();
    assert_eq!(ids.len(), 18);
}

#[test]
fn phy_registers_after_the_setup() {
    let mut script = Vec::new();
    rk3588_combphy_config_pcie(&mut script, 0, rk3588_naneng_combphy(0x1c5).unwrap());
    let mut registers: HashMap<(u8, usize), u32> = HashMap::new();
    let number = |slot| match slot {
        Slot::PhyGrf => 0,
        Slot::PipeGrf => 1,
        Slot::Phy => 2,
        _ => unreachable!(),
    };
    for instr in script {
        match instr.action {
            Action::Write {
                slot,
                offset,
                value,
            } => {
                let register = registers.entry((number(slot), offset)).or_insert(0xffff);
                *register = if slot == Slot::Phy {
                    value
                } else {
                    apply(*register, value)
                };
            }
            Action::Update {
                slot,
                offset,
                mask,
                value,
            } => {
                let register = registers.entry((number(slot), offset)).or_insert(0xffff);
                *register = mmio_update32(*register, mask, value);
            }
            _ => {}
        }
    }
    assert_eq!(registers[&(0, 0x0)], 0x1000);
    assert_eq!(registers[&(0, 0x4)], 0x4000);
    assert_eq!(registers[&(0, 0x8)], 0x0101);
    assert_eq!(registers[&(0, 0xc)], 0x0200);
    assert_eq!(registers[&(1, 0x100)], 0xfffe);
    assert_eq!(registers[&(2, 0x80)], 0xfff3);
    assert_eq!(registers[&(2, 0x2c)], 4);
    assert_eq!(registers[&(2, 0x6c)], 0x4c);
    assert_eq!(registers[&(2, 0x28)], 0xf0);
}

#[test]
fn blocks_have_addresses_of_their_own() {
    let blocks = [0, 1, 2, 0x7f_fffe, 0x7f_ffff];
    for a in blocks {
        for b in blocks {
            assert_eq!(block_addr_of(a, false) == block_addr_of(b, false), a == b);
        }
    }
}

#[test]
fn what_is_written_is_read_back() {
    let items: Vec<u8> = (0..2048u32).map(|i| (i * 31 / 5) as u8).collect();
    let card = rk3588_drivers::mmc::block::write_blocks_pio(&items);
    let mut queue = BlockDevice::new(None).create_queue().unwrap();
    let request = Request {
        block_id: 0,
        kind: RequestKind::Read,
        size: 2048,
        is_null: false,
    };
    let mut submission = queue.submit_request(request, true);
    let timeout = Error::Timeout(ErrorContext {
        phase: Phase::DataRead,
        cmd: Some(18),
    });
    queue.report_dma(&mut submission, Err(timeout));
    assert_eq!(submission.dma_error, Some(BlkError::Retry));
    let mut out = vec![0xff; 2048];
    while let Some(block) = submission.block_to_read() {
        submission.report_block(&mut out, Ok(card[block as usize]));
    }
    assert_eq!(submission.stage, Stage::Done(Ok(RequestId(0))));
    assert_eq!(out, items);
}
