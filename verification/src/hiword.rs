//! Registers whose upper half enables writes to the lower half.
//!
//! Most control registers of the RK3588 hold sixteen bits. A write carries the
//! new bits in its lower half and, in its upper half, one bit for each of them
//! that the write is to change.
use vstd::prelude::*;

verus! {

/// What such a register holds after `word` has been written to it.
pub open spec fn hiword_apply(before: u32, word: u32) -> u32 {
    (before & !(word >> 16)) | (word & (word >> 16))
}

/// Bit `bit` of `value`.
pub open spec fn bit_of(value: u32, bit: u32) -> bool {
    (value >> bit) & 1 == 1
}

/// The word that sets bit `bit` to `level` and changes no other bit.
pub open spec fn hiword_bit(bit: u32, level: bool) -> u32 {
    if level {
        (0x1_0000u32 << bit) | (1u32 << bit)
    } else {
        0x1_0000u32 << bit
    }
}

/// Builds the word that sets bit `bit` to `level` and changes no other bit.
pub fn single_bit_word(bit: u32, level: bool) -> (word: u32)
    requires
        bit < 16,
    ensures
        word == hiword_bit(bit, level),
{
    let enable: u32 = 0x1_0000u32 << bit;
    if level {
        enable | (1u32 << bit)
    } else {
        enable
    }
}

/// Writing a single-bit word sets that bit and leaves every other bit of the
/// register as it was.
pub proof fn lemma_single_bit(before: u32, bit: u32, level: bool)
    requires
        bit < 16,
    ensures
        bit_of(hiword_apply(before, hiword_bit(bit, level)), bit) == level,
        forall|other: u32|
            other < 32 && other != bit ==> #[trigger] bit_of(
                hiword_apply(before, hiword_bit(bit, level)),
                other,
            ) == bit_of(before, other),
{
    let word = hiword_bit(bit, level);
    if level {
        assert(bit_of(hiword_apply(before, word), bit)) by (bit_vector)
            requires
                bit < 16,
                word == (0x1_0000u32 << bit) | (1u32 << bit),
        ;
        assert forall|other: u32| other < 32 && other != bit implies #[trigger] bit_of(
            hiword_apply(before, word),
            other,
        ) == bit_of(before, other) by {
            assert(bit_of(hiword_apply(before, word), other) == bit_of(before, other))
                by (bit_vector)
                requires
                    bit < 16,
                    other < 32,
                    other != bit,
                    word == (0x1_0000u32 << bit) | (1u32 << bit),
            ;
        }
    } else {
        assert(!bit_of(hiword_apply(before, word), bit)) by (bit_vector)
            requires
                bit < 16,
                word == 0x1_0000u32 << bit,
        ;
        assert forall|other: u32| other < 32 && other != bit implies #[trigger] bit_of(
            hiword_apply(before, word),
            other,
        ) == bit_of(before, other) by {
            assert(bit_of(hiword_apply(before, word), other) == bit_of(before, other))
                by (bit_vector)
                requires
                    bit < 16,
                    other < 32,
                    other != bit,
                    word == 0x1_0000u32 << bit,
            ;
        }
    }
}

/// Setting a bit to one level and back to another leaves what the second
/// write alone would have left.
pub proof fn lemma_last_write_wins(before: u32, bit: u32, first: bool, last: bool)
    requires
        bit < 16,
    ensures
        hiword_apply(hiword_apply(before, hiword_bit(bit, first)), hiword_bit(bit, last))
            == hiword_apply(before, hiword_bit(bit, last)),
{
    let set = (0x1_0000u32 << bit) | (1u32 << bit);
    let clear = 0x1_0000u32 << bit;
    assert(hiword_apply(hiword_apply(before, set), set) == hiword_apply(before, set)
        && hiword_apply(hiword_apply(before, set), clear) == hiword_apply(before, clear)
        && hiword_apply(hiword_apply(before, clear), set) == hiword_apply(before, set)
        && hiword_apply(hiword_apply(before, clear), clear) == hiword_apply(before, clear))
        by (bit_vector)
        requires
            bit < 16,
            set == (0x1_0000u32 << bit) | (1u32 << bit),
            clear == 0x1_0000u32 << bit,
    ;
}

/// The bits `start..=end` of a register.
pub open spec fn field_mask(end: u32, start: u32) -> u32 {
    if end - start + 1 >= 32 {
        u32::MAX
    } else {
        (((1u32 << ((end - start + 1) as u32)) - 1) as u32) << start
    }
}

/// The word that puts `value` into the bits `start..=end`.
pub open spec fn hiword_field(end: u32, start: u32, value: u32) -> u32 {
    ((field_mask(end, start) & 0xffff) << 16) | (value << start)
}

/// Builds the word that puts `value` into the bits `start..=end`.
pub fn field_word(end: u32, start: u32, value: u32) -> (word: u32)
    requires
        start <= end,
        start < 32,
        end - start < u32::MAX,
    ensures
        word == hiword_field(end, start, value),
{
    let width: u32 = end - start + 1;
    let mask: u32 = if width >= 32 {
        u32::MAX
    } else {
        proof {
            assert(width < 32 ==> (1u32 << width) >= 1) by (bit_vector);
        }
        ((1u32 << width) - 1) << start
    };
    ((mask & 0xffff) << 16) | (value << start)
}

/// Writing a field word puts the value into the field and leaves every bit
/// outside the field as it was, where the field lies in the lower half of the
/// register and the value fits into it.
pub proof fn lemma_field(before: u32, end: u32, start: u32, value: u32)
    requires
        start <= end < 16,
        value <= field_mask(end, start) >> start,
    ensures
        hiword_apply(before, hiword_field(end, start, value)) == (before & !field_mask(end, start))
            | (value << start),
{
    let width = (end - start + 1) as u32;
    assert(1u32 <= (1u32 << width)) by (bit_vector)
        requires
            1 <= width <= 16,
    ;
    let mask = field_mask(end, start);
    let word = hiword_field(end, start, value);
    assert(hiword_apply(before, word) == (before & !mask) | (value << start)) by (bit_vector)
        requires
            start <= end,
            end < 16,
            width == end - start + 1,
            mask == ((((1u32 << width) - 1) as u32) << start),
            value <= mask >> start,
            word == ((mask & 0xffff) << 16) | (value << start),
    ;
}

/// A field word enables the bits `start..=end` of the lower half (all of them,
/// where the field is 32 bits wide or more), and carries the bits of the value
/// from bit `start` on.
pub proof fn lemma_field_bits(end: u32, start: u32, value: u32, bit: u32)
    requires
        start <= end,
        start < 32,
        end - start < u32::MAX,
        bit < 32,
    ensures
        bit_of(hiword_field(end, start, value), bit) == ((bit >= start && bit_of(
            value,
            (bit - start) as u32,
        )) || (bit >= 16 && (end - start >= 31 || start <= bit - 16 <= end))),
{
    let mask = field_mask(end, start);
    let width = end - start + 1;
    if width >= 32 {
        assert(bit_of(((mask & 0xffff) << 16) | (value << start), bit) == ((bit >= start && bit_of(
            value,
            (bit - start) as u32,
        )) || bit >= 16)) by (bit_vector)
            requires
                mask == u32::MAX,
                bit < 32,
                start < 32,
        ;
    } else {
        let w = width as u32;
        assert((1u32 << w) >= 1) by (bit_vector)
            requires
                1 <= w < 32,
        ;
        assert(bit_of(((mask & 0xffff) << 16) | (value << start), bit) == ((bit >= start && bit_of(
            value,
            (bit - start) as u32,
        )) || (bit >= 16 && start <= bit - 16 && bit - 16 <= end))) by (bit_vector)
            requires
                mask == ((((1u32 << w) - 1) as u32) << start),
                w == end - start + 1,
                1 <= w < 32,
                start <= end,
                start < 32,
                bit < 32,
        ;
    }
}

/// The value of a register after the bits of `mask` have been replaced.
pub open spec fn masked_update(current: u32, mask: u32, value: u32) -> u32 {
    (current & !mask) | (value & mask)
}

/// Replaces the bits of `mask` in `current` by those of `value`: what a
/// read-modify-write puts back.
pub fn mmio_update32(current: u32, mask: u32, value: u32) -> (updated: u32)
    ensures
        updated == masked_update(current, mask, value),
{
    (current & !mask) | (value & mask)
}

/// An update replaces the bits of its mask, leaves the others, and does
/// nothing more when it is done again.
pub proof fn lemma_masked_update(current: u32, mask: u32, value: u32)
    ensures
        masked_update(current, mask, value) & mask == value & mask,
        masked_update(current, mask, value) & !mask == current & !mask,
        masked_update(masked_update(current, mask, value), mask, value) == masked_update(
            current,
            mask,
            value,
        ),
{
    assert(masked_update(current, mask, value) & mask == value & mask && masked_update(
        current,
        mask,
        value,
    ) & !mask == current & !mask && masked_update(
        masked_update(current, mask, value),
        mask,
        value,
    ) == masked_update(current, mask, value)) by (bit_vector);
}

/// What a write does to each bit of such a register: a bit of the lower half
/// takes its new value where its bit of the upper half is set, and is kept
/// otherwise; the upper half is kept.
pub proof fn lemma_written_bits(before: u32, word: u32, bit: u32)
    requires
        bit < 32,
    ensures
        bit < 16 && bit_of(word, (bit + 16) as u32) ==> bit_of(hiword_apply(before, word), bit)
            == bit_of(word, bit),
        bit < 16 && !bit_of(word, (bit + 16) as u32) ==> bit_of(hiword_apply(before, word), bit)
            == bit_of(before, bit),
        bit >= 16 ==> bit_of(hiword_apply(before, word), bit) == bit_of(before, bit),
{
    let enable = (bit + 16) as u32;
    if bit < 16 {
        assert(bit_of(hiword_apply(before, word), bit) == if bit_of(word, enable) {
            bit_of(word, bit)
        } else {
            bit_of(before, bit)
        }) by (bit_vector)
            requires
                bit < 16,
                enable == bit + 16,
        ;
    } else {
        assert(bit_of(hiword_apply(before, word), bit) == bit_of(before, bit)) by (bit_vector)
            requires
                16 <= bit < 32,
        ;
    }
}

/// A single-bit word carries its enabling bit, the bit itself where that is to be
/// set, and no other.
pub proof fn lemma_single_bit_word(bit: u32, level: bool, other: u32)
    requires
        bit < 16,
        other < 32,
    ensures
        bit_of(hiword_bit(bit, level), other) == (other == bit + 16 || (level && other == bit)),
{
    let word = hiword_bit(bit, level);
    if level {
        assert(bit_of(word, other) == (other == bit + 16 || other == bit)) by (bit_vector)
            requires
                word == (0x1_0000u32 << bit) | (1u32 << bit),
                bit < 16,
                other < 32,
        ;
    } else {
        assert(bit_of(word, other) == (other == bit + 16)) by (bit_vector)
            requires
                word == 0x1_0000u32 << bit,
                bit < 16,
                other < 32,
        ;
    }
}

/// The bits of a number are those of its expansion to the base of two.
pub proof fn lemma_bits(value: u32)
    ensures
        bit_of(value, 0) == (value % 2 == 1),
        forall|bit: u32|
            bit < 31 ==> #[trigger] bit_of(value, (bit + 1) as u32) == bit_of(value / 2, bit),
{
    assert(bit_of(value, 0) == (value % 2 == 1)) by (bit_vector);
    assert forall|bit: u32| bit < 31 implies #[trigger] bit_of(value, (bit + 1) as u32) == bit_of(
        value / 2,
        bit,
    ) by {
        assert(bit_of(value, (bit + 1) as u32) == bit_of(value / 2, bit)) by (bit_vector)
            requires
                bit < 31,
        ;
    }
}

} // verus!
