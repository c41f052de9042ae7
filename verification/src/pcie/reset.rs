//! Software resets.
//!
//! A reset is one bit of a register of the clock and reset unit, set while the
//! reset is asserted.
use crate::guard::{
    closed, guarded, lemma_closed_concat, lemma_guarded_concat, needs, provided_at, Resource,
};
use crate::hiword::{bit_of, hiword_apply, hiword_bit, lemma_single_bit, single_bit_word};
use crate::script::{
    plain, plain_instr, reaches, skipping, skipping_instr, Action, Instr, Slot, Window,
};
use vstd::prelude::*;

verus! {

/// The physical address of the clock and reset unit.
pub const RK3588_CRU_BASE: u64 = 0xfd7c_0000;

/// Bytes that are mapped of it.
pub const RK3588_CRU_SIZE: usize = 0x5c000;

/// The first of its reset registers.
pub const RK3588_SOFTRST_OFFSET: usize = 0x0a00;

/// The unit of the PHP domain, counted from the main one.
pub const RK3588_PHP_CRU_OFFSET: usize = 0x8000;

/// Where a reset is: the unit, the register's number in it, and the bit.
pub open spec fn reset_location(reset_id: u32) -> Option<(u64, u32, u32)> {
    if reset_id < 0x1_0000 {
        Some((RK3588_CRU_BASE, reset_id / 16, reset_id % 16))
    } else if 0x2_0005 <= reset_id <= 0x2_0007 {
        Some(
            (
                (RK3588_CRU_BASE + RK3588_PHP_CRU_OFFSET) as u64,
                0,
                (reset_id - 0x2_0000) as u32,
            ),
        )
    } else {
        None
    }
}

/// Where a reset is: the unit, the register's number in it, and the bit. None
/// for a reset that is not known.
pub fn rk3588_reset_location(reset_id: u32) -> (location: Option<(u64, u32, u32)>)
    ensures
        location == reset_location(reset_id),
{
    if reset_id < 0x10000 {
        return Some((RK3588_CRU_BASE, reset_id / 16, reset_id % 16));
    }
    let location = match reset_id {
        0x20005 => (RK3588_CRU_BASE + RK3588_PHP_CRU_OFFSET as u64, 0, 5),
        0x20006 => (RK3588_CRU_BASE + RK3588_PHP_CRU_OFFSET as u64, 0, 6),
        0x20007 => (RK3588_CRU_BASE + RK3588_PHP_CRU_OFFSET as u64, 0, 7),
        _ => return None,
    };
    Some(location)
}

/// The write that asserts or releases a reset.
#[derive(Clone, Copy, Debug, PartialEq, Eq)]
pub struct ResetWrite {
    pub window: Window,
    pub offset: usize,
    pub value: u32,
}

/// The write that asserts or releases a reset, none for one that is not known.
pub open spec fn reset_write(reset_id: u32, asserted: bool) -> Option<ResetWrite> {
    match reset_location(reset_id) {
        Some((base, bank, bit)) => Some(
            ResetWrite {
                window: Window { base, size: RK3588_CRU_SIZE },
                offset: (RK3588_SOFTRST_OFFSET + bank * 4) as usize,
                value: hiword_bit(bit, asserted),
            },
        ),
        None => None,
    }
}

/// The write that asserts a reset, or releases it. None for a reset that is
/// not known.
pub fn write_reset_id(reset_id: u32, asserted: bool) -> (write: Option<ResetWrite>)
    ensures
        write == reset_write(reset_id, asserted),
{
    match rk3588_reset_location(reset_id) {
        Some((base, bank, bit)) => Some(
            ResetWrite {
                window: Window { base, size: RK3588_CRU_SIZE },
                offset: RK3588_SOFTRST_OFFSET + bank as usize * 4,
                value: single_bit_word(bit, asserted),
            },
        ),
        None => None,
    }
}

/// The write that asserts a reset.
pub fn assert_reset_id(reset_id: u32) -> (write: Option<ResetWrite>)
    ensures
        write == reset_write(reset_id, true),
{
    write_reset_id(reset_id, true)
}

/// The write that releases a reset.
pub fn deassert_reset_id(reset_id: u32) -> (write: Option<ResetWrite>)
    ensures
        write == reset_write(reset_id, false),
{
    write_reset_id(reset_id, false)
}

/// The script that asserts or releases one reset. A reset that is not known is
/// passed over, and so is one whose unit cannot be mapped.
pub open spec fn reset_script(reset_id: u32, asserted: bool) -> Seq<Instr> {
    match reset_write(reset_id, asserted) {
        Some(write) => seq![
            skipping(Action::MapWindow { slot: Slot::Cru, window: write.window }, 1),
            plain(Action::Write { slot: Slot::Cru, offset: write.offset, value: write.value }),
        ],
        None => seq![],
    }
}

/// The script that asserts or releases resets, one after the other.
pub open spec fn resets_script(reset_ids: Seq<u32>, asserted: bool) -> Seq<Instr>
    decreases reset_ids.len(),
{
    if reset_ids.len() == 0 {
        seq![]
    } else {
        resets_script(reset_ids.drop_last(), asserted) + reset_script(reset_ids.last(), asserted)
    }
}

/// Adds what carries out a reset's write, if there is one.
fn push_write(script: &mut Vec<Instr>, write: Option<ResetWrite>)
    ensures
        final(script)@ == old(script)@ + match write {
            Some(found) => seq![
                skipping(Action::MapWindow { slot: Slot::Cru, window: found.window }, 1),
                plain(Action::Write { slot: Slot::Cru, offset: found.offset, value: found.value }),
            ],
            None => seq![],
        },
{
    if let Some(found) = write {
        script.push(
            skipping_instr(Action::MapWindow { slot: Slot::Cru, window: found.window }, 1),
        );
        script.push(
            plain_instr(
                Action::Write { slot: Slot::Cru, offset: found.offset, value: found.value },
            ),
        );
    }
    assert(script@ =~= old(script)@ + match write {
        Some(found) => seq![
            skipping(Action::MapWindow { slot: Slot::Cru, window: found.window }, 1),
            plain(Action::Write { slot: Slot::Cru, offset: found.offset, value: found.value }),
        ],
        None => seq![],
    });
}

/// Adds the script that asserts one reset.
pub fn push_assert(script: &mut Vec<Instr>, reset_id: u32)
    ensures
        final(script)@ == old(script)@ + reset_script(reset_id, true),
{
    push_write(script, assert_reset_id(reset_id));
}

/// Adds the script that releases one reset.
pub fn push_deassert(script: &mut Vec<Instr>, reset_id: u32)
    ensures
        final(script)@ == old(script)@ + reset_script(reset_id, false),
{
    push_write(script, deassert_reset_id(reset_id));
}

/// The script that asserts resets, in their order.
pub fn assert_resets(reset_ids: &[u32]) -> (script: Vec<Instr>)
    ensures
        script@ == resets_script(reset_ids@, true),
{
    let mut script: Vec<Instr> = Vec::new();
    let mut i: usize = 0;
    while i < reset_ids.len()
        invariant
            i <= reset_ids.len(),
            script@ == resets_script(reset_ids@.take(i as int), true),
        decreases reset_ids.len() - i,
    {
        push_assert(&mut script, reset_ids[i]);
        assert(reset_ids@.take(i + 1).drop_last() =~= reset_ids@.take(i as int));
        i = i + 1;
    }
    assert(reset_ids@.take(i as int) =~= reset_ids@);
    script
}

/// The script that releases resets, in their order.
pub fn deassert_resets(reset_ids: &[u32]) -> (script: Vec<Instr>)
    ensures
        script@ == resets_script(reset_ids@, false),
{
    let mut script: Vec<Instr> = Vec::new();
    let mut i: usize = 0;
    while i < reset_ids.len()
        invariant
            i <= reset_ids.len(),
            script@ == resets_script(reset_ids@.take(i as int), false),
        decreases reset_ids.len() - i,
    {
        push_deassert(&mut script, reset_ids[i]);
        assert(reset_ids@.take(i + 1).drop_last() =~= reset_ids@.take(i as int));
        i = i + 1;
    }
    assert(reset_ids@.take(i as int) =~= reset_ids@);
    script
}

/// The physical address of the register of a reset.
pub open spec fn reset_address(reset_id: u32) -> int {
    let write = reset_write(reset_id, true)->0;
    write.window.base + write.offset
}

/// The bit of a reset in its register.
pub open spec fn reset_bit(reset_id: u32) -> u32 {
    (reset_location(reset_id)->0).2
}

/// No two resets share a bit.
pub proof fn lemma_resets_distinct(a: u32, b: u32)
    requires
        reset_location(a) is Some,
        reset_location(b) is Some,
        a != b,
    ensures
        reset_address(a) != reset_address(b) || reset_bit(a) != reset_bit(b),
{
}

/// The write of a reset lies inside the window that is mapped for it, on a
/// register's boundary.
pub proof fn lemma_reset_in_window(reset_id: u32, asserted: bool)
    ensures
        reset_write(reset_id, asserted) matches Some(write) ==> write.offset + 4
            <= write.window.size && write.offset % 4 == 0,
        reset_location(reset_id) matches Some((base, bank, bit)) ==> bit < 16,
{
}

/// Whether a reset is asserted, where the registers hold that by physical
/// address.
pub open spec fn is_asserted(registers: spec_fn(int) -> u32, reset_id: u32) -> bool {
    bit_of(registers(reset_address(reset_id)), reset_bit(reset_id))
}

/// What the reset registers hold after one reset has been written.
pub open spec fn after_reset(
    registers: spec_fn(int) -> u32,
    reset_id: u32,
    asserted: bool,
) -> spec_fn(int) -> u32 {
    match reset_write(reset_id, asserted) {
        Some(write) => |address: int|
            if address == write.window.base + write.offset {
                hiword_apply(registers(address), write.value)
            } else {
                registers(address)
            },
        None => registers,
    }
}

/// What the reset registers hold after resets have been written in order.
pub open spec fn after_resets(
    registers: spec_fn(int) -> u32,
    reset_ids: Seq<u32>,
    asserted: bool,
) -> spec_fn(int) -> u32
    decreases reset_ids.len(),
{
    if reset_ids.len() == 0 {
        registers
    } else {
        after_reset(
            after_resets(registers, reset_ids.drop_last(), asserted),
            reset_ids.last(),
            asserted,
        )
    }
}

proof fn lemma_after_reset(
    registers: spec_fn(int) -> u32,
    reset_id: u32,
    asserted: bool,
    other: u32,
)
    requires
        reset_location(other) is Some,
    ensures
        is_asserted(after_reset(registers, reset_id, asserted), other) == if reset_id == other {
            asserted
        } else {
            is_asserted(registers, other)
        },
{
    if reset_location(reset_id) is Some {
        lemma_reset_in_window(reset_id, asserted);
        lemma_reset_in_window(other, asserted);
        lemma_single_bit(registers(reset_address(reset_id)), reset_bit(reset_id), asserted);
        if reset_id != other {
            lemma_resets_distinct(reset_id, other);
        }
    }
}

/// Writing resets leaves each that is listed (and known) asserted or released
/// as was asked, and every other as it was.
pub proof fn lemma_after_resets(
    registers: spec_fn(int) -> u32,
    reset_ids: Seq<u32>,
    asserted: bool,
    other: u32,
)
    requires
        reset_location(other) is Some,
    ensures
        is_asserted(after_resets(registers, reset_ids, asserted), other) == if reset_ids.contains(
            other,
        ) {
            asserted
        } else {
            is_asserted(registers, other)
        },
    decreases reset_ids.len(),
{
    if reset_ids.len() > 0 {
        let before = reset_ids.drop_last();
        lemma_after_resets(registers, before, asserted, other);
        lemma_after_reset(
            after_resets(registers, before, asserted),
            reset_ids.last(),
            asserted,
            other,
        );
        assert(reset_ids =~= before.push(reset_ids.last()));
        if before.contains(other) {
            let i = choose|i: int| 0 <= i < before.len() && before[i] == other;
            assert(reset_ids[i] == other);
        }
        if reset_ids.contains(other) && reset_ids.last() != other {
            let i = choose|i: int| 0 <= i < reset_ids.len() && reset_ids[i] == other;
            assert(before[i] == other);
        }
        if reset_ids.last() == other {
            assert(reset_ids[reset_ids.len() - 1] == other);
        }
    }
}

/// Releasing the resets that have been asserted leaves each of them released
/// and every other reset as it was before.
pub proof fn lemma_resets_released(registers: spec_fn(int) -> u32, reset_ids: Seq<u32>, other: u32)
    requires
        reset_location(other) is Some,
    ensures
        is_asserted(
            after_resets(after_resets(registers, reset_ids, true), reset_ids, false),
            other,
        ) == (!reset_ids.contains(other) && is_asserted(registers, other)),
{
    lemma_after_resets(registers, reset_ids, true, other);
    lemma_after_resets(after_resets(registers, reset_ids, true), reset_ids, false, other);
}

/// The script of one reset writes only to the unit that it has mapped.
pub proof fn lemma_reset_script_guarded(reset_id: u32, asserted: bool)
    ensures
        closed(reset_script(reset_id, asserted)),
        guarded(reset_script(reset_id, asserted)),
{
    let script = reset_script(reset_id, asserted);
    lemma_reset_in_window(reset_id, asserted);
    assert forall|ok: spec_fn(int) -> bool, i: int, resource: Resource, bytes: int|
        0 <= i < script.len() && #[trigger] reaches(script, ok, 0, i) && #[trigger] needs(
            script[i].action,
            resource,
            bytes,
        ) implies exists|j: int| provided_at(script, ok, i, resource, bytes, j) by {
        reveal_with_fuel(reaches, 3);
        assert(i == 1);
        assert(provided_at(script, ok, i, resource, bytes, 0));
    }
}

/// The script of a list of resets writes only to units that it has mapped.
pub proof fn lemma_resets_script_guarded(reset_ids: Seq<u32>, asserted: bool)
    ensures
        closed(resets_script(reset_ids, asserted)),
        guarded(resets_script(reset_ids, asserted)),
    decreases reset_ids.len(),
{
    if reset_ids.len() > 0 {
        lemma_resets_script_guarded(reset_ids.drop_last(), asserted);
        lemma_reset_script_guarded(reset_ids.last(), asserted);
        lemma_closed_concat(
            resets_script(reset_ids.drop_last(), asserted),
            reset_script(reset_ids.last(), asserted),
        );
        lemma_guarded_concat(
            resets_script(reset_ids.drop_last(), asserted),
            reset_script(reset_ids.last(), asserted),
        );
    }
}

} // verus!
