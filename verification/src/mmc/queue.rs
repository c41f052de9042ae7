//! The queue of a card: what it does for a request.
//!
//! A request is a walk of the caller from stage to stage: first by DMA, and
//! where that fails by the processor, block by block.
use super::block::{
    block_addr_of, block_at, blocks_of, card_address, lemma_blocks_round_trip, lemma_store_blocks,
    store_block, whole, with_block, with_blocks, BLOCK_SIZE,
};
use super::error::{blk_error_of, map_dev_err_to_blk_err, BlkError, Error, Reason};
use vstd::prelude::*;

verus! {

/// What buffers a device asks for.
#[derive(Clone, Copy, Debug, PartialEq, Eq, Structural)]
pub struct BuffConfig {
    /// The addresses that the device reaches.
    pub dma_mask: u64,
    pub align: usize,
    pub size: usize,
}

/// The number of a request.
#[derive(Clone, Copy, Debug, PartialEq, Eq, Structural)]
pub struct RequestId(pub usize);

/// Which way the bytes of a request go.
#[derive(Clone, Copy, Debug, PartialEq, Eq, Structural)]
pub enum RequestKind {
    Read,
    Write,
}

/// A request: `size` bytes from the block `block_id` on.
#[derive(Clone, Copy, Debug, PartialEq, Eq, Structural)]
pub struct Request {
    pub block_id: usize,
    pub kind: RequestKind,
    /// The bytes of the buffer.
    pub size: usize,
    /// Whether the buffer is at address 0.
    pub is_null: bool,
}

/// A transfer by DMA.
#[derive(Clone, Copy, Debug, PartialEq, Eq, Structural)]
pub struct DmaTransfer {
    /// Where it starts on the card.
    pub card_addr: u32,
    /// The bytes to move.
    pub size: usize,
}

/// What a request waits for.
#[derive(Clone, Copy, Debug, PartialEq, Eq)]
pub enum Stage {
    /// A transfer by DMA.
    Dma(DmaTransfer),
    /// A read of the block `index` of the buffer.
    ReadBlock { index: usize },
    /// A write of the whole buffer.
    WriteBlocks,
    /// Nothing: it is over.
    Done(Result<RequestId, BlkError>),
}

/// A request under way.
#[derive(Clone, Copy, Debug, PartialEq, Eq)]
pub struct Submission {
    pub kind: RequestKind,
    /// The block of the card that it starts from.
    pub start_block: u32,
    /// The blocks of the buffer.
    pub block_count: usize,
    /// Why it did not go by DMA, once that has failed.
    pub dma_error: Option<BlkError>,
    pub stage: Stage,
}

/// A card's block device. It has one queue to give away.
#[derive(Debug, PartialEq, Eq, Structural)]
pub struct BlockDevice {
    /// Whether the queue is still here.
    pub has_card: bool,
    pub capacity_blocks: u64,
}

/// The queue of a card.
#[derive(Debug, PartialEq, Eq, Structural)]
pub struct BlockQueue {
    pub capacity_blocks: u64,
    /// Whether a transfer by DMA has worked.
    pub adma_success_logged: bool,
    /// Whether a transfer by DMA has failed.
    pub adma_failure_logged: bool,
}

/// The number of a block on a card: 32 bits of it count.
pub open spec fn start_block_of(block_id: usize) -> u32 {
    (block_id as int % 0x1_0000_0000) as u32
}

/// The block of the card that the block `index` of a buffer is read from: the
/// index is taken in 32 bits, the sum is not.
pub open spec fn block_read(start_block: u32, index: int) -> int {
    start_block + index % 0x1_0000_0000
}

/// The reason why a transfer of no byte is not tried.
pub open spec fn empty_reason(kind: RequestKind) -> Reason {
    match kind {
        RequestKind::Read => Reason::EmptyDmaRead,
        RequestKind::Write => Reason::EmptyDmaWrite,
    }
}

/// The reason why a transfer at address 0 is not tried.
pub open spec fn null_reason(kind: RequestKind) -> Reason {
    match kind {
        RequestKind::Read => Reason::NullDmaRead,
        RequestKind::Write => Reason::NullDmaWrite,
    }
}

/// The reason why a transfer of a broken block is not tried.
pub open spec fn dma_alignment_reason(kind: RequestKind) -> Reason {
    match kind {
        RequestKind::Read => Reason::DmaReadNotAligned,
        RequestKind::Write => Reason::DmaWriteNotAligned,
    }
}

/// The reason why a request with a broken block is refused.
pub open spec fn alignment_reason(kind: RequestKind) -> Reason {
    match kind {
        RequestKind::Read => Reason::ReadNotAligned,
        RequestKind::Write => Reason::WriteNotAligned,
    }
}

/// The transfer for a buffer that is not empty.
pub open spec fn dma_transfer(
    kind: RequestKind,
    start_block: u32,
    size: usize,
    high_capacity: bool,
) -> Result<DmaTransfer, BlkError> {
    if size % 512 != 0 {
        Err(BlkError::Other(dma_alignment_reason(kind)))
    } else {
        Ok(DmaTransfer { card_addr: card_address(start_block, high_capacity), size })
    }
}

/// The transfer that is tried for a buffer.
pub open spec fn dma_attempt(
    kind: RequestKind,
    start_block: u32,
    size: usize,
    is_null: bool,
    high_capacity: bool,
) -> Result<DmaTransfer, BlkError> {
    if size == 0 {
        Err(BlkError::Other(empty_reason(kind)))
    } else if is_null {
        Err(BlkError::Other(null_reason(kind)))
    } else {
        dma_transfer(kind, start_block, size, high_capacity)
    }
}

/// Where the work goes on without DMA, from the block `index` of the buffer.
pub open spec fn pio_stage(kind: RequestKind, index: int, block_count: usize) -> Stage {
    match kind {
        RequestKind::Read => if index < block_count {
            Stage::ReadBlock { index: index as usize }
        } else {
            Stage::Done(Ok(RequestId(0)))
        },
        RequestKind::Write => Stage::WriteBlocks,
    }
}

/// What a request starts with.
pub open spec fn submitted(request: Request, high_capacity: bool) -> Submission {
    let kind = request.kind;
    let start_block = start_block_of(request.block_id);
    let block_count = (request.size / 512) as usize;
    if request.size % 512 != 0 {
        Submission {
            kind,
            start_block,
            block_count,
            dma_error: None,
            stage: Stage::Done(Err(BlkError::Other(alignment_reason(kind)))),
        }
    } else {
        match dma_attempt(kind, start_block, request.size, request.is_null, high_capacity) {
            Ok(transfer) => Submission {
                kind,
                start_block,
                block_count,
                dma_error: None,
                stage: Stage::Dma(transfer),
            },
            Err(err) => Submission {
                kind,
                start_block,
                block_count,
                dma_error: Some(err),
                stage: pio_stage(kind, 0, block_count),
            },
        }
    }
}

/// Where a request goes when its transfer by DMA ends with `result`.
pub open spec fn after_dma(submission: Submission, result: Result<(), Error>) -> Submission {
    match result {
        Ok(()) => Submission { stage: Stage::Done(Ok(RequestId(0))), ..submission },
        Err(err) => Submission {
            dma_error: Some(blk_error_of(err)),
            stage: pio_stage(submission.kind, 0, submission.block_count),
            ..submission
        },
    }
}

/// Where a request goes when the block that it waits for has been read.
pub open spec fn after_block(submission: Submission) -> Submission {
    Submission {
        stage: pio_stage(
            submission.kind,
            submission.stage->index + 1,
            submission.block_count,
        ),
        ..submission
    }
}

/// Where a request goes when the host fails it.
pub open spec fn after_failure(submission: Submission, err: Error) -> Submission {
    Submission { stage: Stage::Done(Err(blk_error_of(err))), ..submission }
}

impl Submission {
    /// Whether the stage goes with the kind and the size.
    pub open spec fn wf(self) -> bool {
        match self.stage {
            Stage::Dma(transfer) => transfer.size == self.block_count * 512 && self.block_count > 0,
            Stage::ReadBlock { index } => self.kind == RequestKind::Read && index
                < self.block_count,
            Stage::WriteBlocks => self.kind == RequestKind::Write,
            Stage::Done(_) => true,
        }
    }

    /// Whether the request waits for a block that the card can be asked for.
    pub open spec fn reads_in_range(self) -> bool {
        self.stage matches Stage::ReadBlock { index } && block_read(self.start_block, index as int)
            <= u32::MAX
    }

    /// The block of the card to read now. None where the request waits for no
    /// block, or for one whose number takes more than 32 bits.
    pub fn block_to_read(&self) -> (block: Option<u32>)
        ensures
            block is Some <==> self.reads_in_range(),
            block matches Some(number) ==> number == block_read(
                self.start_block,
                self.stage->index as int,
            ),
            self.stage matches Stage::ReadBlock { index } ==> self.start_block + index <= u32::MAX
                ==> (block matches Some(number) && number == self.start_block + index),
    {
        match self.stage {
            Stage::ReadBlock { index } => {
                assert(index as u32 == index as u64 % 0x1_0000_0000) by (bit_vector);
                self.start_block.checked_add(index as u32)
            },
            _ => None,
        }
    }

    /// Goes on after a read of a block, which is stored into the buffer.
    pub fn report_block(&mut self, out: &mut [u8], result: Result<[u8; BLOCK_SIZE], Error>)
        requires
            old(self).wf(),
            old(self).stage is ReadBlock,
            old(out)@.len() == old(self).block_count * 512,
        ensures
            final(self).wf(),
            match result {
                Ok(block) => *final(self) == after_block(*old(self)) && final(out)@ == with_block(
                    old(out)@,
                    old(self).stage->index as int,
                    block@,
                ),
                Err(err) => *final(self) == after_failure(*old(self), err) && final(out)@ == old(
                    out,
                )@,
            },
    {
        if let Stage::ReadBlock { index } = self.stage {
            match result {
                Ok(block) => {
                    store_block(out, index, &block);
                    if index + 1 < self.block_count {
                        self.stage = Stage::ReadBlock { index: index + 1 };
                    } else {
                        self.stage = Stage::Done(Ok(RequestId(0)));
                    }
                },
                Err(err) => {
                    self.stage = Stage::Done(Err(map_dev_err_to_blk_err(err)));
                },
            }
        }
    }

    /// Goes on after the write of the whole buffer.
    pub fn report_write(&mut self, result: Result<(), Error>)
        requires
            old(self).wf(),
            old(self).stage is WriteBlocks,
        ensures
            final(self).wf(),
            match result {
                Ok(()) => *final(self) == (Submission {
                    stage: Stage::Done(Ok(RequestId(0))),
                    ..*old(self)
                }),
                Err(err) => *final(self) == after_failure(*old(self), err),
            },
    {
        match result {
            Ok(()) => {
                self.stage = Stage::Done(Ok(RequestId(0)));
            },
            Err(err) => {
                self.stage = Stage::Done(Err(map_dev_err_to_blk_err(err)));
            },
        }
    }
}

impl BlockDevice {
    /// The device of a card that has just been initialized.
    pub fn new(capacity_blocks: Option<u64>) -> (device: BlockDevice)
        ensures
            device.has_card,
            device.capacity_blocks == match capacity_blocks {
                Some(blocks) => blocks,
                None => 0,
            },
    {
        BlockDevice {
            has_card: true,
            capacity_blocks: match capacity_blocks {
                Some(blocks) => blocks,
                None => 0,
            },
        }
    }

    /// The name of the device.
    pub fn name(&self) -> (name: &'static str)
        ensures
            name@ == "rockchip-sdhci"@,
    {
        "rockchip-sdhci"
    }

    /// Gives the queue away, if it is still here.
    pub fn create_queue(&mut self) -> (queue: Option<BlockQueue>)
        ensures
            !final(self).has_card,
            final(self).capacity_blocks == old(self).capacity_blocks,
            queue == if old(self).has_card {
                Some(
                    (BlockQueue {
                        capacity_blocks: old(self).capacity_blocks,
                        adma_success_logged: false,
                        adma_failure_logged: false,
                    }),
                )
            } else {
                None
            },
    {
        if self.has_card {
            self.has_card = false;
            Some(
                BlockQueue {
                    capacity_blocks: self.capacity_blocks,
                    adma_success_logged: false,
                    adma_failure_logged: false,
                },
            )
        } else {
            None
        }
    }

    /// The device raises no interrupts.
    pub fn is_irq_enabled(&self) -> (enabled: bool)
        ensures
            !enabled,
    {
        false
    }
}

impl BlockQueue {
    /// The blocks of the card, as far as they can be counted.
    pub fn num_blocks(&self) -> (blocks: usize)
        ensures
            blocks == self.capacity_blocks as usize,
            self.capacity_blocks <= usize::MAX ==> blocks == self.capacity_blocks,
    {
        self.capacity_blocks as usize
    }

    /// The bytes of a block.
    pub fn block_size(&self) -> (size: usize)
        ensures
            size == 512,
    {
        BLOCK_SIZE
    }

    /// The number of the queue.
    pub fn id(&self) -> (id: usize)
        ensures
            id == 0,
    {
        0
    }

    /// The buffers that requests should bring.
    pub fn buff_config(&self) -> (config: BuffConfig)
        ensures
            config == (BuffConfig { dma_mask: u64::MAX, align: 512, size: 512 }),
    {
        BuffConfig { dma_mask: u64::MAX, align: BLOCK_SIZE, size: BLOCK_SIZE }
    }

    /// A request that has been submitted is over.
    pub fn poll_request(&self, _request: RequestId) -> (result: Result<(), BlkError>)
        ensures
            result == Ok::<(), BlkError>(()),
    {
        Ok(())
    }

    /// The transfer for a read into a buffer that is not empty.
    pub fn dma_read_into(
        &self,
        start_block: u32,
        size: usize,
        high_capacity: bool,
    ) -> (transfer: Result<DmaTransfer, BlkError>)
        requires
            size > 0,
        ensures
            transfer == dma_transfer(RequestKind::Read, start_block, size, high_capacity),
    {
        if !size.is_multiple_of(BLOCK_SIZE) {
            return Err(BlkError::Other(Reason::DmaReadNotAligned));
        }
        if size / BLOCK_SIZE == 0 {
            return Err(BlkError::Other(Reason::DmaReadTooSmall));
        }
        Ok(DmaTransfer { card_addr: block_addr_of(start_block, high_capacity), size })
    }

    /// The transfer that is tried for a read.
    pub fn try_read_dma(
        &self,
        start_block: u32,
        size: usize,
        is_null: bool,
        high_capacity: bool,
    ) -> (transfer: Result<DmaTransfer, BlkError>)
        ensures
            transfer == dma_attempt(RequestKind::Read, start_block, size, is_null, high_capacity),
    {
        if size == 0 {
            return Err(BlkError::Other(Reason::EmptyDmaRead));
        }
        if is_null {
            return Err(BlkError::Other(Reason::NullDmaRead));
        }
        self.dma_read_into(start_block, size, high_capacity)
    }

    /// The transfer for a write from a buffer that is not empty.
    pub fn dma_write_from(
        &self,
        start_block: u32,
        size: usize,
        high_capacity: bool,
    ) -> (transfer: Result<DmaTransfer, BlkError>)
        requires
            size > 0,
        ensures
            transfer == dma_transfer(RequestKind::Write, start_block, size, high_capacity),
    {
        if !size.is_multiple_of(BLOCK_SIZE) {
            return Err(BlkError::Other(Reason::DmaWriteNotAligned));
        }
        if size / BLOCK_SIZE == 0 {
            return Err(BlkError::Other(Reason::DmaWriteTooSmall));
        }
        Ok(DmaTransfer { card_addr: block_addr_of(start_block, high_capacity), size })
    }

    /// The transfer that is tried for a write.
    pub fn try_write_dma(
        &self,
        start_block: u32,
        size: usize,
        is_null: bool,
        high_capacity: bool,
    ) -> (transfer: Result<DmaTransfer, BlkError>)
        ensures
            transfer == dma_attempt(RequestKind::Write, start_block, size, is_null, high_capacity),
    {
        if size == 0 {
            return Err(BlkError::Other(Reason::EmptyDmaWrite));
        }
        if is_null {
            return Err(BlkError::Other(Reason::NullDmaWrite));
        }
        self.dma_write_from(start_block, size, high_capacity)
    }

    /// Where a request goes on without DMA.
    fn start_pio(kind: RequestKind, block_count: usize) -> (stage: Stage)
        ensures
            stage == pio_stage(kind, 0, block_count),
    {
        match kind {
            RequestKind::Read => if block_count > 0 {
                Stage::ReadBlock { index: 0 }
            } else {
                Stage::Done(Ok(RequestId(0)))
            },
            RequestKind::Write => Stage::WriteBlocks,
        }
    }

    /// Takes a request on, for a card of high capacity or another.
    pub fn submit_request(&mut self, request: Request, high_capacity: bool) -> (submission:
        Submission)
        ensures
            submission == submitted(request, high_capacity),
            submission.wf(),
            *final(self) == (BlockQueue {
                adma_failure_logged: old(self).adma_failure_logged || submission.dma_error is Some,
                ..*old(self)
            }),
    {
        let block_id = request.block_id;
        assert(block_id as u32 == block_id as u64 % 0x1_0000_0000) by (bit_vector);
        let start_block: u32 = block_id as u32;
        let kind = request.kind;
        let size: usize = request.size;
        let block_count: usize = size / BLOCK_SIZE;
        if !size.is_multiple_of(BLOCK_SIZE) {
            let reason = match kind {
                RequestKind::Read => Reason::ReadNotAligned,
                RequestKind::Write => Reason::WriteNotAligned,
            };
            return Submission {
                kind,
                start_block,
                block_count,
                dma_error: None,
                stage: Stage::Done(Err(BlkError::Other(reason))),
            };
        }
        let attempt = match kind {
            RequestKind::Read => self.try_read_dma(
                start_block,
                size,
                request.is_null,
                high_capacity,
            ),
            RequestKind::Write => self.try_write_dma(
                start_block,
                size,
                request.is_null,
                high_capacity,
            ),
        };
        match attempt {
            Ok(transfer) => Submission {
                kind,
                start_block,
                block_count,
                dma_error: None,
                stage: Stage::Dma(transfer),
            },
            Err(err) => {
                self.adma_failure_logged = true;
                Submission {
                    kind,
                    start_block,
                    block_count,
                    dma_error: Some(err),
                    stage: Self::start_pio(kind, block_count),
                }
            },
        }
    }

    /// Goes on after a transfer by DMA.
    pub fn report_dma(&mut self, submission: &mut Submission, result: Result<(), Error>)
        requires
            old(submission).wf(),
            old(submission).stage is Dma,
        ensures
            *final(submission) == after_dma(*old(submission), result),
            final(submission).wf(),
            *final(self) == (BlockQueue {
                adma_success_logged: old(self).adma_success_logged || result is Ok,
                adma_failure_logged: old(self).adma_failure_logged || result is Err,
                ..*old(self)
            }),
    {
        match result {
            Ok(()) => {
                self.adma_success_logged = true;
                submission.stage = Stage::Done(Ok(RequestId(0)));
            },
            Err(err) => {
                self.adma_failure_logged = true;
                submission.dma_error = Some(map_dev_err_to_blk_err(err));
                submission.stage = Self::start_pio(submission.kind, submission.block_count);
            },
        }
    }
}

/// Where a request and its buffer are when `blocks` have been read for it, one
/// after the other.
pub open spec fn after_blocks(
    submission: Submission,
    out: Seq<u8>,
    blocks: Seq<Seq<u8>>,
) -> (Submission, Seq<u8>)
    decreases blocks.len(),
{
    if blocks.len() == 0 {
        (submission, out)
    } else {
        let (before, stored) = after_blocks(submission, out, blocks.drop_last());
        (after_block(before), with_block(stored, before.stage->index as int, blocks.last()))
    }
}

/// A read without DMA asks for the blocks of the buffer in their order, each
/// once; what has been read stands in the buffer at its place, and what has
/// not is untouched. With the last block it is over, and has worked.
pub proof fn lemma_read_by_pio(submission: Submission, out: Seq<u8>, blocks: Seq<Seq<u8>>)
    requires
        submission.kind == RequestKind::Read,
        submission.stage == pio_stage(RequestKind::Read, 0, submission.block_count),
        blocks.len() <= submission.block_count,
        whole(blocks),
        out.len() == submission.block_count * 512,
    ensures
        after_blocks(submission, out, blocks).0 == (Submission {
            stage: if blocks.len() < submission.block_count {
                Stage::ReadBlock { index: blocks.len() as usize }
            } else {
                Stage::Done(Ok(RequestId(0)))
            },
            ..submission
        }),
        after_blocks(submission, out, blocks).1 == with_blocks(out, blocks),
        after_blocks(submission, out, blocks).1.len() == out.len(),
        forall|i: int|
            0 <= i < blocks.len() ==> block_at(after_blocks(submission, out, blocks).1, i)
                == #[trigger] blocks[i],
        forall|k: int|
            blocks.len() * 512 <= k < out.len() ==> #[trigger] after_blocks(
                submission,
                out,
                blocks,
            ).1[k] == out[k],
    decreases blocks.len(),
{
    lemma_store_blocks(out, blocks);
    if blocks.len() > 0 {
        let rest = blocks.drop_last();
        assert(whole(rest)) by {
            assert forall|i: int| 0 <= i < rest.len() implies (#[trigger] rest[i]).len() == 512 by {
                assert(rest[i] == blocks[i]);
            }
        }
        lemma_read_by_pio(submission, out, rest);
    }
}

/// What has been written to a card is read back from it: where the blocks of
/// the card are those that `items` were cut into, a read of as many bytes ends
/// well, with `items` in the buffer.
pub proof fn lemma_read_back(submission: Submission, items: Seq<u8>, out: Seq<u8>)
    requires
        submission.kind == RequestKind::Read,
        submission.stage == pio_stage(RequestKind::Read, 0, submission.block_count),
        items.len() == submission.block_count * 512,
        out.len() == items.len(),
    ensures
        after_blocks(submission, out, blocks_of(items)).0.stage == Stage::Done(Ok(RequestId(0))),
        after_blocks(submission, out, blocks_of(items)).1 == items,
{
    let blocks = blocks_of(items);
    assert(blocks.len() == submission.block_count);
    assert(whole(blocks));
    lemma_read_by_pio(submission, out, blocks);
    lemma_blocks_round_trip(items, out);
}

/// A request is refused at once exactly when its buffer holds a broken block.
pub proof fn lemma_refused_if_not_aligned(request: Request, high_capacity: bool)
    ensures
        request.size % 512 != 0 <==> submitted(request, high_capacity).stage matches Stage::Done(
            Err(_),
        ),
        request.size % 512 != 0 ==> submitted(request, high_capacity).stage == Stage::Done(
            Err(BlkError::Other(alignment_reason(request.kind))),
        ),
{
}

/// By DMA a request moves the blocks that it would move without: as many, and
/// from the same one on.
pub proof fn lemma_same_blocks(request: Request, high_capacity: bool)
    requires
        submitted(request, high_capacity).stage is Dma,
    ensures
        ({
            let submission = submitted(request, high_capacity);
            &&& submission.stage->Dma_0.size == submission.block_count * 512
            &&& submission.stage->Dma_0.card_addr == card_address(
                block_read(submission.start_block, 0) as u32,
                high_capacity,
            )
        }),
{
}

/// A request that is given to DMA is over at once exactly when the transfer has
/// worked; it has then worked too.
pub proof fn lemma_over_by_dma(submission: Submission, result: Result<(), Error>)
    requires
        submission.wf(),
        submission.stage is Dma,
    ensures
        after_dma(submission, result).stage is Done <==> result is Ok,
        result is Ok ==> after_dma(submission, result).stage == Stage::Done(Ok(RequestId(0))),
{
}

/// A transfer by DMA that fails costs a request nothing: it goes on as if DMA
/// had not been tried, from its first block.
pub proof fn lemma_fallback(request: Request, high_capacity: bool, err: Error)
    requires
        submitted(request, high_capacity).stage is Dma,
    ensures
        ({
            let submission = submitted(request, high_capacity);
            let after = after_dma(submission, Err(err));
            &&& after.stage == pio_stage(request.kind, 0, submission.block_count)
            &&& after.start_block == submission.start_block
            &&& after.block_count == submission.block_count
        }),
{
}

} // verus!
