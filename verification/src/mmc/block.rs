//! Blocks: how they are addressed on a card, and how a buffer is cut into
//! them and put together from them.
use vstd::prelude::*;

verus! {

/// The bytes of a block.
pub const BLOCK_SIZE: usize = 512;

/// The address of `block` on a card: its number on a card of high capacity,
/// its first byte on another. An address that cannot be written is given as
/// the highest.
pub open spec fn card_address(block: u32, high_capacity: bool) -> u32 {
    if high_capacity {
        block
    } else if block * BLOCK_SIZE <= u32::MAX {
        (block * BLOCK_SIZE) as u32
    } else {
        u32::MAX
    }
}

/// The address of `block` on a card.
pub fn block_addr_of(block: u32, high_capacity: bool) -> (addr: u32)
    ensures
        addr == card_address(block, high_capacity),
{
    if high_capacity {
        block
    } else {
        match block.checked_mul(BLOCK_SIZE as u32) {
            Some(addr) => addr,
            None => u32::MAX,
        }
    }
}

/// Where the block `index` of a buffer starts.
pub open spec fn block_start(index: int) -> int {
    index * 512
}

/// The block `index` of `items`.
pub open spec fn block_at(items: Seq<u8>, index: int) -> Seq<u8> {
    items.subrange(block_start(index), block_start(index + 1))
}

/// `items`, cut into blocks; what is left behind the last whole block is
/// dropped.
pub open spec fn blocks_of(items: Seq<u8>) -> Seq<Seq<u8>> {
    Seq::new(items.len() / 512, |index: int| block_at(items, index))
}

/// `out`, with `block` in the place of its block `index`.
pub open spec fn with_block(out: Seq<u8>, index: int, block: Seq<u8>) -> Seq<u8> {
    out.subrange(0, block_start(index)) + block + out.subrange(
        block_start(index + 1),
        out.len() as int,
    )
}

/// `out`, with `blocks` in the place of its first blocks.
pub open spec fn with_blocks(out: Seq<u8>, blocks: Seq<Seq<u8>>) -> Seq<u8>
    decreases blocks.len(),
{
    if blocks.len() == 0 {
        out
    } else {
        with_block(with_blocks(out, blocks.drop_last()), blocks.len() - 1, blocks.last())
    }
}

/// Whether all of `blocks` are whole.
pub open spec fn whole(blocks: Seq<Seq<u8>>) -> bool {
    forall|i: int| 0 <= i < blocks.len() ==> (#[trigger] blocks[i]).len() == 512
}

/// Copies the block `index` of `items`.
fn copy_block(items: &[u8], index: usize) -> (block: [u8; BLOCK_SIZE])
    requires
        block_start(index + 1) <= items@.len(),
    ensures
        block@ == block_at(items@, index as int),
{
    assert(items.len() <= usize::MAX);
    let start: usize = index * BLOCK_SIZE;
    let mut block: [u8; BLOCK_SIZE] = [0; BLOCK_SIZE];
    let mut i: usize = 0;
    while i < BLOCK_SIZE
        invariant
            start == block_start(index as int),
            start + 512 <= items@.len(),
            i <= 512,
            block@.len() == 512,
            forall|k: int| 0 <= k < i ==> #[trigger] block@[k] == items@[start + k],
        decreases 512 - i,
    {
        block[i] = items[start + i];
        i = i + 1;
    }
    assert(block@ =~= block_at(items@, index as int));
    block
}

/// Cuts `items` into blocks, to be written one behind the other.
pub fn write_blocks_pio(items: &[u8]) -> (blocks: Vec<[u8; BLOCK_SIZE]>)
    ensures
        blocks@.len() == blocks_of(items@).len(),
        forall|i: int| 0 <= i < blocks@.len() ==> (#[trigger] blocks@[i])@ == blocks_of(items@)[i],
{
    let count: usize = items.len() / BLOCK_SIZE;
    let mut blocks: Vec<[u8; BLOCK_SIZE]> = Vec::new();
    let mut index: usize = 0;
    while index < count
        invariant
            count == items@.len() / 512,
            index <= count,
            blocks@.len() == index,
            forall|i: int|
                0 <= i < index ==> (#[trigger] blocks@[i])@ == blocks_of(items@)[i],
        decreases count - index,
    {
        let block: [u8; BLOCK_SIZE] = copy_block(items, index);
        blocks.push(block);
        index = index + 1;
    }
    blocks
}

/// Puts `block` in the place of the block `index` of `out`.
pub fn store_block(out: &mut [u8], index: usize, block: &[u8; BLOCK_SIZE])
    requires
        block_start(index + 1) <= old(out)@.len(),
    ensures
        final(out)@ == with_block(old(out)@, index as int, block@),
{
    assert(out.len() <= usize::MAX);
    let start: usize = index * BLOCK_SIZE;
    let mut i: usize = 0;
    while i < BLOCK_SIZE
        invariant
            start == block_start(index as int),
            start + 512 <= old(out)@.len(),
            i <= 512,
            block@.len() == 512,
            out@.len() == old(out)@.len(),
            forall|k: int| 0 <= k < i ==> out@[start + k] == #[trigger] block@[k],
            forall|k: int|
                0 <= k < out@.len() && !(start <= k < start + i) ==> #[trigger] out@[k] == old(
                    out,
                )@[k],
        decreases 512 - i,
    {
        out[start + i] = block[i];
        i = i + 1;
    }
    proof {
        let stored = with_block(old(out)@, index as int, block@);
        assert forall|k: int| 0 <= k < out@.len() implies #[trigger] out@[k] == stored[k] by {
            if start <= k < start + 512 {
                let j = k - start;
                assert(out@[start + j] == block@[j]);
            }
        }
        assert(out@ =~= stored);
    }
}

/// A block that is stored is found again, and no other block is touched.
pub proof fn lemma_store_block(out: Seq<u8>, index: int, block: Seq<u8>, other: int)
    requires
        block.len() == 512,
        0 <= index,
        block_start(index + 1) <= out.len(),
        0 <= other,
        block_start(other + 1) <= out.len(),
    ensures
        with_block(out, index, block).len() == out.len(),
        block_at(with_block(out, index, block), other) == if other == index {
            block
        } else {
            block_at(out, other)
        },
{
    let stored = with_block(out, index, block);
    if other == index {
        assert(block_at(stored, other) =~= block);
    } else {
        assert(other < index || index < other);
        assert(block_at(stored, other) =~= block_at(out, other));
    }
}

/// Blocks that are stored are found again, and what lies behind them is
/// untouched.
pub proof fn lemma_store_blocks(out: Seq<u8>, blocks: Seq<Seq<u8>>)
    requires
        whole(blocks),
        block_start(blocks.len() as int) <= out.len(),
    ensures
        with_blocks(out, blocks).len() == out.len(),
        forall|i: int|
            0 <= i < blocks.len() ==> block_at(with_blocks(out, blocks), i) == #[trigger] blocks[i],
        forall|k: int|
            block_start(blocks.len() as int) <= k < out.len() ==> #[trigger] with_blocks(
                out,
                blocks,
            )[k] == out[k],
    decreases blocks.len(),
{
    if blocks.len() > 0 {
        let rest = blocks.drop_last();
        let last = blocks.len() - 1;
        assert(whole(rest)) by {
            assert forall|i: int| 0 <= i < rest.len() implies (#[trigger] rest[i]).len() == 512 by {
                assert(rest[i] == blocks[i]);
            }
        }
        lemma_store_blocks(out, rest);
        let before = with_blocks(out, rest);
        assert forall|i: int| 0 <= i < blocks.len() implies block_at(with_blocks(out, blocks), i)
            == #[trigger] blocks[i] by {
            lemma_store_block(before, last, blocks.last(), i);
            if i < last {
                assert(rest[i] == blocks[i]);
            }
        }
        lemma_store_block(before, last, blocks.last(), last);
    }
}

/// Cutting a buffer of whole blocks and putting the blocks together again
/// gives the buffer back, whatever was in the place of it: what is read back
/// block by block is what was written.
pub proof fn lemma_blocks_round_trip(items: Seq<u8>, out: Seq<u8>)
    requires
        items.len() % 512 == 0,
        out.len() == items.len(),
    ensures
        with_blocks(out, blocks_of(items)) == items,
{
    let blocks = blocks_of(items);
    lemma_store_blocks(out, blocks);
    let back = with_blocks(out, blocks);
    assert forall|k: int| 0 <= k < items.len() implies #[trigger] back[k] == items[k] by {
        let i = k / 512;
        assert(0 <= i < blocks.len());
        assert(block_at(back, i) == blocks[i]);
        assert(block_at(back, i)[k - i * 512] == block_at(items, i)[k - i * 512]);
    }
    assert(back =~= items);
}

/// Different blocks of a card have different addresses, as long as the
/// addresses can be written.
pub proof fn lemma_addresses_distinct(a: u32, b: u32, high_capacity: bool)
    requires
        a != b,
        high_capacity || (a * BLOCK_SIZE <= u32::MAX && b * BLOCK_SIZE <= u32::MAX),
    ensures
        card_address(a, high_capacity) != card_address(b, high_capacity),
{
}

} // verus!
