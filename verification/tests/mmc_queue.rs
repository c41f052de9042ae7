//! Requests to a card.
use rk3588_drivers::mmc::block::{block_addr_of, store_block, write_blocks_pio, BLOCK_SIZE};
use rk3588_drivers::mmc::error::{
    map_dev_err_to_blk_err, BlkError, CardError, Error, ErrorContext, Phase, Reason,
};
use rk3588_drivers::mmc::queue::{
    BlockDevice, BlockQueue, BuffConfig, DmaTransfer, Request, RequestId, RequestKind, Stage,
};

const OVER: Stage = Stage::Done(Ok(RequestId(0)));

fn queue() -> BlockQueue {
    BlockDevice::new(Some(1000)).create_queue().unwrap()
}

fn request(kind: RequestKind, block_id: usize, size: usize) -> Request {
    Request {
        block_id,
        kind,
        size,
        is_null: false,
    }
}

fn context(phase: Phase) -> ErrorContext {
    ErrorContext { phase, cmd: None }
}

#[test]
fn card_addresses() {
    assert_eq!(block_addr_of(7, true), 7);
    assert_eq!(block_addr_of(7, false), 3584);
    assert_eq!(block_addr_of(0x7f_ffff, false), 0xffff_fe00);
    assert_eq!(block_addr_of(0x80_0000, false), u32::MAX);
    assert_eq!(block_addr_of(u32::MAX, true), u32::MAX);
}

#[test]
fn device_gives_one_queue() {
    let mut device = BlockDevice::new(Some(1000));
    assert_eq!(device.name(), "rockchip-sdhci");
    assert!(!device.is_irq_enabled());
    let queue = device.create_queue().unwrap();
    assert_eq!(queue.num_blocks(), 1000);
    assert_eq!(queue.block_size(), 512);
    assert_eq!(queue.id(), 0);
    assert_eq!(
        queue.buff_config(),
        BuffConfig {
            dma_mask: u64::MAX,
            align: 512,
            size: 512
        }
    );
    assert_eq!(queue.poll_request(RequestId(3)), Ok(()));
    assert_eq!(device.create_queue(), None);
    assert_eq!(BlockDevice::new(None).capacity_blocks, 0);
}

#[test]
fn read_by_dma() {
    let mut queue = queue();
    let mut submission = queue.submit_request(request(RequestKind::Read, 9, 1024), false);
    assert_eq!(
        submission.stage,
        Stage::Dma(DmaTransfer {
            card_addr: 9 * 512,
            size: 1024
        })
    );
    assert!(!queue.adma_success_logged);
    queue.report_dma(&mut submission, Ok(()));
    assert_eq!(submission.stage, OVER);
    assert!(queue.adma_success_logged && !queue.adma_failure_logged);
}

#[test]
fn read_falls_back_to_single_blocks() {
    let mut queue = queue();
    let mut submission = queue.submit_request(request(RequestKind::Read, 9, 1024), true);
    queue.report_dma(
        &mut submission,
        Err(Error::Timeout(context(Phase::DataRead))),
    );
    assert!(queue.adma_failure_logged && !queue.adma_success_logged);
    assert_eq!(submission.dma_error, Some(BlkError::Retry));
    let mut out = [0u8; 1024];
    assert_eq!(submission.block_to_read(), Some(9));
    submission.report_block(&mut out, Ok([1; BLOCK_SIZE]));
    assert_eq!(submission.block_to_read(), Some(10));
    submission.report_block(&mut out, Ok([2; BLOCK_SIZE]));
    assert_eq!(submission.stage, OVER);
    assert_eq!(submission.block_to_read(), None);
    assert_eq!(out[..512], [1; 512]);
    assert_eq!(out[512..], [2; 512]);
}

#[test]
fn read_ends_with_the_first_failure() {
    let mut queue = queue();
    let mut submission = queue.submit_request(request(RequestKind::Read, 0, 1536), true);
    queue.report_dma(&mut submission, Err(Error::Misaligned));
    let mut out = [7u8; 1536];
    submission.report_block(&mut out, Ok([1; BLOCK_SIZE]));
    submission.report_block(&mut out, Err(Error::NoCard));
    assert_eq!(
        submission.stage,
        Stage::Done(Err(BlkError::NotSupported))
    );
    assert_eq!(out[..512], [1; 512]);
    assert_eq!(out[512..], [7; 1024]);
}

#[test]
fn block_number_that_does_not_fit() {
    let mut queue = queue();
    let mut submission =
        queue.submit_request(request(RequestKind::Read, 0xffff_ffff, 1024), true);
    queue.report_dma(&mut submission, Err(Error::NoCard));
    assert_eq!(submission.block_to_read(), Some(0xffff_ffff));
    let mut out = [0u8; 1024];
    submission.report_block(&mut out, Ok([1; BLOCK_SIZE]));
    assert_eq!(submission.stage, Stage::ReadBlock { index: 1 });
    assert_eq!(submission.block_to_read(), None);
}

#[test]
fn block_number_counts_in_32_bits() {
    let mut queue = queue();
    let submission = queue.submit_request(request(RequestKind::Read, 0x1_0000_0005, 512), true);
    assert_eq!(submission.start_block, 5);
}

#[test]
fn write_by_dma_and_without() {
    let mut queue = queue();
    let mut submission = queue.submit_request(request(RequestKind::Write, 3, 512), true);
    assert_eq!(
        submission.stage,
        Stage::Dma(DmaTransfer {
            card_addr: 3,
            size: 512
        })
    );
    queue.report_dma(
        &mut submission,
        Err(Error::CardError(CardError::AddressError)),
    );
    assert_eq!(submission.stage, Stage::WriteBlocks);
    assert_eq!(submission.dma_error, Some(BlkError::Other(Reason::Io)));
    submission.report_write(Ok(()));
    assert_eq!(submission.stage, OVER);
    let mut submission = queue.submit_request(request(RequestKind::Write, 3, 512), true);
    queue.report_dma(&mut submission, Err(Error::CardLocked));
    submission.report_write(Err(Error::InvalidArgument));
    assert_eq!(
        submission.stage,
        Stage::Done(Err(BlkError::Other(Reason::CardRequestNotAligned)))
    );
    assert!(queue.adma_failure_logged && !queue.adma_success_logged);
}

#[test]
fn flags_stay_set() {
    let mut queue = queue();
    let mut submission = queue.submit_request(request(RequestKind::Read, 0, 512), true);
    queue.report_dma(&mut submission, Ok(()));
    let mut submission = queue.submit_request(request(RequestKind::Read, 0, 512), true);
    queue.report_dma(&mut submission, Err(Error::NoCard));
    assert!(queue.adma_success_logged && queue.adma_failure_logged);
}

#[test]
fn broken_blocks_are_refused() {
    let mut queue = queue();
    let read = queue.submit_request(request(RequestKind::Read, 0, 100), true);
    assert_eq!(
        read.stage,
        Stage::Done(Err(BlkError::Other(Reason::ReadNotAligned)))
    );
    let write = queue.submit_request(request(RequestKind::Write, 0, 513), true);
    assert_eq!(
        write.stage,
        Stage::Done(Err(BlkError::Other(Reason::WriteNotAligned)))
    );
    assert!(!queue.adma_failure_logged);
}

#[test]
fn empty_requests() {
    let mut queue = queue();
    let read = queue.submit_request(request(RequestKind::Read, 0, 0), true);
    assert_eq!(read.stage, OVER);
    assert_eq!(read.dma_error, Some(BlkError::Other(Reason::EmptyDmaRead)));
    assert!(queue.adma_failure_logged);
    let write = queue.submit_request(request(RequestKind::Write, 0, 0), true);
    assert_eq!(write.stage, Stage::WriteBlocks);
    assert_eq!(
        write.dma_error,
        Some(BlkError::Other(Reason::EmptyDmaWrite))
    );
}

#[test]
fn transfers_that_are_not_tried() {
    let queue = queue();
    let refused = |reason| Err(BlkError::Other(reason));
    assert_eq!(
        queue.try_read_dma(0, 512, true, true),
        refused(Reason::NullDmaRead)
    );
    assert_eq!(
        queue.try_write_dma(0, 512, true, true),
        refused(Reason::NullDmaWrite)
    );
    assert_eq!(
        queue.try_read_dma(0, 0, true, true),
        refused(Reason::EmptyDmaRead)
    );
    assert_eq!(
        queue.dma_read_into(0, 511, true),
        refused(Reason::DmaReadNotAligned)
    );
    assert_eq!(
        queue.dma_write_from(0, 1, true),
        refused(Reason::DmaWriteNotAligned)
    );
    assert_eq!(
        queue.dma_write_from(2, 512, false),
        Ok(DmaTransfer {
            card_addr: 1024,
            size: 512
        })
    );
}

#[test]
fn buffer_in_blocks_and_back() {
    let items: Vec<u8> = (0..1536u32).map(|i| (i / 7) as u8).collect();
    let blocks = write_blocks_pio(&items);
    assert_eq!(blocks.len(), 3);
    assert_eq!(blocks[1][..], items[512..1024]);
    let mut out = vec![0u8; 1536];
    for (index, block) in blocks.iter().enumerate() {
        store_block(&mut out, index, block);
    }
    assert_eq!(out, items);
    assert_eq!(write_blocks_pio(&items[..1000]).len(), 1);
    assert_eq!(write_blocks_pio(&[]).len(), 0);
}

#[test]
fn failures_of_the_host() {
    let ctx = context(Phase::BusyWait);
    let io = BlkError::Other(Reason::Io);
    let misaligned = BlkError::Other(Reason::CardRequestNotAligned);
    assert_eq!(map_dev_err_to_blk_err(Error::Timeout(ctx)), BlkError::Retry);
    assert_eq!(map_dev_err_to_blk_err(Error::Crc(ctx)), io);
    assert_eq!(map_dev_err_to_blk_err(Error::NoCard), BlkError::NotSupported);
    assert_eq!(
        map_dev_err_to_blk_err(Error::UnsupportedCommand),
        BlkError::NotSupported
    );
    assert_eq!(map_dev_err_to_blk_err(Error::BadResponse(ctx)), io);
    assert_eq!(
        map_dev_err_to_blk_err(Error::CardError(CardError::Unknown(3))),
        io
    );
    assert_eq!(map_dev_err_to_blk_err(Error::WriteError(ctx)), io);
    assert_eq!(map_dev_err_to_blk_err(Error::ReadError(ctx)), io);
    assert_eq!(map_dev_err_to_blk_err(Error::Misaligned), misaligned);
    assert_eq!(map_dev_err_to_blk_err(Error::InvalidArgument), misaligned);
    assert_eq!(
        map_dev_err_to_blk_err(Error::CardLocked),
        BlkError::NotSupported
    );
    assert_eq!(map_dev_err_to_blk_err(Error::BusError(ctx)), io);
}

#[test]
fn reasons_in_words() {
    let texts = [
        (Reason::ReadNotAligned, "read buffer is not block aligned"),
        (Reason::WriteNotAligned, "write buffer is not block aligned"),
        (Reason::EmptyDmaRead, "zero-sized DMA read buffer"),
        (Reason::NullDmaRead, "null DMA read buffer"),
        (
            Reason::DmaReadNotAligned,
            "DMA read buffer is not block aligned",
        ),
        (
            Reason::DmaReadTooSmall,
            "DMA read buffer is smaller than one block",
        ),
        (Reason::EmptyDmaWrite, "zero-sized DMA write buffer"),
        (Reason::NullDmaWrite, "null DMA write buffer"),
        (
            Reason::DmaWriteNotAligned,
            "DMA write buffer is not block aligned",
        ),
        (
            Reason::DmaWriteTooSmall,
            "DMA write buffer is smaller than one block",
        ),
        (
            Reason::CardRequestNotAligned,
            "SD/MMC request is not block aligned",
        ),
        (Reason::Io, "SDHCI I/O error"),
    ];
    for (reason, text) in texts {
        assert_eq!(reason.text(), text);
    }
}
