//! Laws of the driver as a whole, stated on a card as its blocks and on what the
//! host and the card report.
use super::block::{blocks_of, with_block};
use super::clock::{
    clock_step, core_clock_of, lemma_core_clock_is_first, ClockEvent, ClockStep, CoreClock,
};
use super::error::{
    blk_error_of, card_failure, means_absent_card, BlkError, CardError, Error, ErrorContext, Phase,
    ProbeError, Reason,
};
use super::probe::{
    after_events, can_follow, can_happen, due, next_step, probe_start, Action, Event, Probe, Step,
};
use super::queue::{
    after_block, after_dma, after_failure, block_read, dma_attempt, dma_transfer, submitted,
    DmaTransfer, Request, RequestId, RequestKind, Stage, Submission,
};
use crate::fdt::{ClockView, RegFixed};
use vstd::prelude::*;

verus! {

/// A request and its buffer after `steps` blocks have been read for it, each
/// from the block of `card` that the request asks for.
pub open spec fn after_reads(
    submission: Submission,
    out: Seq<u8>,
    card: spec_fn(u32) -> Seq<u8>,
    steps: nat,
) -> (Submission, Seq<u8>)
    decreases steps,
{
    if steps == 0 {
        (submission, out)
    } else {
        let (before, filled) = after_reads(submission, out, card, (steps - 1) as nat);
        let index = before.stage->index as int;
        let number = block_read(before.start_block, index) as u32;
        (after_block(before), with_block(filled, index, card(number)))
    }
}

/// Where a request goes on without DMA: at once, or after the transfer has
/// failed with `err`.
pub open spec fn without_dma(request: Request, high_capacity: bool, err: Error) -> Submission {
    let submission = submitted(request, high_capacity);
    if submission.stage is Dma {
        after_dma(submission, Err(err))
    } else {
        submission
    }
}

/// A read without DMA fills the buffer from the blocks of the card from the
/// requested one on: byte k of the buffer is byte k % 512 of block k / 512 behind
/// the requested one, as far as the numbers of the blocks take no more than 32
/// bits. With the last block it is over, and has worked; after fewer blocks it
/// waits for the next, and the rest of the buffer is untouched.
pub proof fn lemma_read_from_card(
    request: Request,
    high_capacity: bool,
    err: Error,
    card: spec_fn(u32) -> Seq<u8>,
    out: Seq<u8>,
    steps: nat,
)
    requires
        request.kind == RequestKind::Read,
        request.size % 512 == 0,
        forall|block: u32| (#[trigger] card(block)).len() == 512,
        out.len() == request.size,
        steps <= request.size / 512,
        request.block_id as int % 0x1_0000_0000 + steps <= 0x1_0000_0000,
    ensures
        ({
            let (end, filled) = after_reads(
                without_dma(request, high_capacity, err),
                out,
                card,
                steps,
            );
            let start = request.block_id as int % 0x1_0000_0000;
            &&& steps == request.size / 512 ==> end.stage == Stage::Done(
                Ok::<RequestId, BlkError>(RequestId(0)),
            )
            &&& steps < request.size / 512 ==> (end.stage matches Stage::ReadBlock { index }
                && index == steps && (start + steps <= 0xffff_ffff ==> block_read(
                end.start_block,
                index as int,
            ) == start + steps))
            &&& filled.len() == request.size
            &&& forall|k: int|
                #![trigger filled[k]]
                0 <= k < steps * 512 ==> filled[k] == card((start + k / 512) as u32)[k % 512]
            &&& forall|k: int|
                #![trigger filled[k]]
                steps * 512 <= k < request.size ==> filled[k] == out[k]
        }),
    decreases steps,
{
    let start = request.block_id as int % 0x1_0000_0000;
    let begun = without_dma(request, high_capacity, err);
    assert(begun.start_block == start);
    assert(begun.block_count == request.size / 512);
    if steps > 0 {
        let last = (steps - 1) as nat;
        lemma_read_from_card(request, high_capacity, err, card, out, last);
        lemma_reads_keep(begun, out, card, last);
        let (before, filled) = after_reads(begun, out, card, last);
        let index = before.stage->index as int;
        let block = card((start + last) as u32);
        let (end, stored) = after_reads(begun, out, card, steps);
        assert(stored == with_block(filled, last as int, block));
        assert forall|k: int|
            #![trigger stored[k]]
            0 <= k < steps * 512 implies stored[k] == card((start + k / 512) as u32)[k % 512] by {
            if k >= last * 512 {
                assert(k / 512 == last);
                assert(stored[k] == block[k - last * 512]);
            } else {
                assert(stored[k] == filled[k]);
            }
        }
        assert forall|k: int|
            #![trigger stored[k]]
            steps * 512 <= k < request.size implies stored[k] == out[k] by {
            assert(stored[k] == filled[k]);
        }
    }
}

proof fn lemma_reads_keep(
    submission: Submission,
    out: Seq<u8>,
    card: spec_fn(u32) -> Seq<u8>,
    steps: nat,
)
    ensures
        after_reads(submission, out, card, steps).0.kind == submission.kind,
        after_reads(submission, out, card, steps).0.start_block == submission.start_block,
        after_reads(submission, out, card, steps).0.block_count == submission.block_count,
    decreases steps,
{
    if steps > 0 {
        lemma_reads_keep(submission, out, card, (steps - 1) as nat);
    }
}

/// Byte `k` of what a transfer moves, where it reads a card: a card of high
/// capacity counts blocks, another counts bytes.
pub open spec fn dma_byte(
    transfer: DmaTransfer,
    high_capacity: bool,
    card: spec_fn(u32) -> Seq<u8>,
    k: int,
) -> u8 {
    if high_capacity {
        card((transfer.card_addr + k / 512) as u32)[k % 512]
    } else {
        card(((transfer.card_addr + k) / 512) as u32)[(transfer.card_addr + k) % 512]
    }
}

/// A transfer by DMA covers the blocks that are read without: all of the buffer,
/// from the requested block on. Where the address of that block cannot be
/// written, the transfer is tried at the highest address.
pub proof fn lemma_dma_covers(
    request: Request,
    high_capacity: bool,
    card: spec_fn(u32) -> Seq<u8>,
    k: int,
)
    requires
        submitted(request, high_capacity).stage is Dma,
    ensures
        ({
            let transfer = submitted(request, high_capacity).stage->Dma_0;
            let start = request.block_id as int % 0x1_0000_0000;
            &&& transfer.size == request.size
            &&& high_capacity ==> transfer.card_addr == start
            &&& !high_capacity && start * 512 <= 0xffff_ffff ==> transfer.card_addr == start * 512
            &&& !high_capacity && start * 512 > 0xffff_ffff ==> transfer.card_addr == 0xffff_ffff
            &&& 0 <= k < transfer.size && (high_capacity || start * 512 <= 0xffff_ffff)
                ==> dma_byte(transfer, high_capacity, card, k) == card(
                (start + k / 512) as u32,
            )[k % 512]
        }),
{
    let start = request.block_id as int % 0x1_0000_0000;
    if !high_capacity && start * 512 <= 0xffff_ffff {
        assert((start * 512 + k) / 512 == start + k / 512);
        assert((start * 512 + k) % 512 == k % 512);
    }
}

/// A buffer is cut into its blocks for a write: byte k is byte k % 512 of block
/// k / 512.
pub proof fn lemma_written_blocks(items: Seq<u8>, k: int)
    ensures
        blocks_of(items).len() == items.len() / 512,
        0 <= k < items.len() / 512 * 512 ==> blocks_of(items)[k / 512].len() == 512 && blocks_of(
            items,
        )[k / 512][k % 512] == items[k],
{
    if 0 <= k < items.len() / 512 * 512 {
        let i = k / 512;
        assert(0 <= i < items.len() / 512);
        assert(i * 512 + k % 512 == k);
    }
}

/// What a request starts with. A broken block is refused; without a byte, or with
/// a buffer at address 0, DMA is not tried, and the reason is kept; else it is.
pub proof fn lemma_submitted(request: Request, high_capacity: bool)
    ensures
        ({
            let submission = submitted(request, high_capacity);
            let read = request.kind == RequestKind::Read;
            &&& submission.kind == request.kind
            &&& submission.start_block == request.block_id as int % 0x1_0000_0000
            &&& submission.block_count == request.size / 512
            &&& request.size % 512 != 0 ==> submission.dma_error is None && submission.stage
                == Stage::Done(
                Err::<RequestId, BlkError>(
                    BlkError::Other(
                        if read {
                            Reason::ReadNotAligned
                        } else {
                            Reason::WriteNotAligned
                        },
                    ),
                ),
            )
            &&& request.size == 0 ==> submission.dma_error == Some(
                BlkError::Other(
                    if read {
                        Reason::EmptyDmaRead
                    } else {
                        Reason::EmptyDmaWrite
                    },
                ),
            ) && submission.stage == if read {
                Stage::Done(Ok::<RequestId, BlkError>(RequestId(0)))
            } else {
                Stage::WriteBlocks
            }
            &&& request.size % 512 == 0 && request.size > 0 && request.is_null
                ==> submission.dma_error == Some(
                BlkError::Other(
                    if read {
                        Reason::NullDmaRead
                    } else {
                        Reason::NullDmaWrite
                    },
                ),
            ) && submission.stage == if read {
                Stage::ReadBlock { index: 0 }
            } else {
                Stage::WriteBlocks
            }
            &&& request.size % 512 == 0 && request.size > 0 && !request.is_null
                ==> submission.dma_error is None && submission.stage is Dma
        }),
{
}

/// How a request goes on: after a transfer by DMA it is over where that worked,
/// and starts anew without DMA where it failed, with the failure kept; after a
/// block it goes to the next, and ends well with the last; any failure without
/// DMA ends it with that failure.
pub proof fn lemma_request_goes_on(submission: Submission, err: Error)
    ensures
        after_dma(submission, Ok(())) == (Submission {
            stage: Stage::Done(Ok::<RequestId, BlkError>(RequestId(0))),
            ..submission
        }),
        submission.kind == RequestKind::Read && submission.block_count > 0 ==> after_dma(
            submission,
            Err(err),
        ) == (Submission {
            dma_error: Some(blk_error_of(err)),
            stage: Stage::ReadBlock { index: 0 },
            ..submission
        }),
        submission.kind == RequestKind::Write ==> after_dma(submission, Err(err)) == (Submission {
            dma_error: Some(blk_error_of(err)),
            stage: Stage::WriteBlocks,
            ..submission
        }),
        submission.wf() ==> (submission.stage matches Stage::ReadBlock { index } ==> after_block(
            submission,
        ) == (Submission {
            stage: if index + 1 < submission.block_count {
                Stage::ReadBlock { index: (index + 1) as usize }
            } else {
                Stage::Done(Ok::<RequestId, BlkError>(RequestId(0)))
            },
            ..submission
        })),
        after_failure(submission, err) == (Submission {
            stage: Stage::Done(Err::<RequestId, BlkError>(blk_error_of(err))),
            ..submission
        }),
{
}

/// How a failure of the host or the card looks to the one who made the request:
/// only a card that has not answered in time is worth another try.
pub proof fn lemma_failures_told(err: Error)
    ensures
        blk_error_of(err) == BlkError::Retry <==> err is Timeout,
        blk_error_of(err) == BlkError::NotSupported <==> err == Error::NoCard || err
            == Error::UnsupportedCommand || err == Error::CardLocked,
        blk_error_of(err) == BlkError::Other(Reason::CardRequestNotAligned) <==> err
            == Error::Misaligned || err == Error::InvalidArgument,
        blk_error_of(err) == BlkError::Other(Reason::Io) <==> err is Crc || err is BadResponse
            || err is CardError || err is WriteError || err is ReadError || err is BusError,
{
}

/// Which failures of a card's initialization say that there is no card: that it
/// says so, or that a command got no answer, a garbled one or a bad one while it
/// was sent, answered or part of the initialization.
pub proof fn lemma_absent_card(cmd: Option<u8>, phase: Phase, fault: CardError)
    ensures
        ({
            let ctx = ErrorContext { phase, cmd };
            let at_command = cmd is Some && (phase == Phase::CommandSend || phase
                == Phase::ResponseWait || phase == Phase::Init);
            &&& means_absent_card(Error::NoCard)
            &&& means_absent_card(Error::Timeout(ctx)) <==> at_command
            &&& means_absent_card(Error::Crc(ctx)) <==> at_command
            &&& means_absent_card(Error::BadResponse(ctx)) <==> at_command
            &&& !means_absent_card(Error::UnsupportedCommand)
            &&& !means_absent_card(Error::CardError(fault))
            &&& !means_absent_card(Error::WriteError(ctx))
            &&& !means_absent_card(Error::ReadError(ctx))
            &&& !means_absent_card(Error::Misaligned)
            &&& !means_absent_card(Error::InvalidArgument)
            &&& !means_absent_card(Error::CardLocked)
            &&& !means_absent_card(Error::BusError(ctx))
        }),
{
}

/// A controller without a card is skipped; with a card that fails, the failure is
/// told together with the registers of the controller.
pub proof fn lemma_card_failures(address: u64, size: u64, err: Error)
    ensures
        means_absent_card(err) ==> card_failure(address, size, err) == ProbeError::NotMatch,
        !means_absent_card(err) ==> (card_failure(address, size, err) matches ProbeError::Init {
            address: told_address,
            size: told_size,
            err: told,
        } && told_address == address && told_size == size && told == err),
{
}

/// The clock of the host is the first that is named "core": the one at `i`, where
/// none before it is. Its number is its first selecting cell where its provider
/// wants any, and 0 else. There is none where `i` is past the last clock.
pub proof fn lemma_core_clock(clocks: Seq<ClockView>, i: int)
    requires
        0 <= i <= clocks.len(),
        forall|k: int| 0 <= k < i ==> (#[trigger] clocks[k]).name != Some("core"@),
        i < clocks.len() ==> clocks[i].name == Some("core"@),
    ensures
        i == clocks.len() ==> core_clock_of(clocks) is None,
        i < clocks.len() ==> (core_clock_of(clocks) matches Some(core) && core.phandle
            == clocks[i].phandle && core.id == if clocks[i].cells > 0 && clocks[i].specifier.len()
            > 0 {
            clocks[i].specifier[0] as int
        } else {
            0
        }),
{
    lemma_core_clock_is_first(clocks, i);
}

/// The steps of a change of the clock's rate: the device is locked, told exactly
/// the rate asked for, and asked for it again; a failure of any is one of the bus
/// during initialization, outside of any command.
pub proof fn lemma_clock_steps(target_hz: u32)
    ensures
        clock_step(target_hz, ClockEvent::Requested) == ClockStep::Lock,
        clock_step(target_hz, ClockEvent::Locked) matches ClockStep::SetRate { hz } && hz
            == target_hz,
        clock_step(target_hz, ClockEvent::RateSet) == ClockStep::ReadRate,
        clock_step(target_hz, ClockEvent::RateRead) == ClockStep::Finished(Ok::<(), Error>(())),
        clock_step(target_hz, ClockEvent::Failed) == ClockStep::Finished(
            Err::<(), Error>(Error::BusError(ErrorContext { phase: Phase::Init, cmd: None })),
        ),
{
}

/// A probe starts with mapping the first register range of the controller, 4096
/// bytes where that does not say its size; without one it is refused.
pub proof fn lemma_probe_starts(regs: Seq<RegFixed>, core: Option<CoreClock>)
    ensures
        regs.len() == 0 ==> probe_start(regs, core) == Err::<Probe, ProbeError>(
            ProbeError::NoRegister,
        ),
        regs.len() > 0 ==> (probe_start(regs, core) matches Ok(probe) && {
            &&& probe.core == core
            &&& probe.address == regs[0].address
            &&& probe.size == match regs[0].size {
                Some(size) => size as int,
                None => 4096,
            }
            &&& due(probe) == Some(
                Action::MapRegisters { address: probe.address, size: probe.size },
            )
        }),
{
}

/// What a probe that waits for something has its caller do.
pub proof fn lemma_due_actions(probe: Probe)
    requires
        probe.wf(),
    ensures
        probe.step == Step::MapRegisters ==> due(probe) == Some(
            Action::MapRegisters { address: probe.address, size: probe.size },
        ),
        probe.step == Step::FindClockDevice ==> (probe.core matches Some(core) && due(probe)
            == Some(Action::FindClockDevice { phandle: core.phandle })),
        probe.step == Step::GetClock ==> due(probe) == Some(Action::GetClock),
        probe.step == Step::StoreClock ==> (probe.core matches Some(core) && due(probe) == Some(
            Action::StoreClock { id: core.id },
        )),
        probe.step == Step::QueryClock ==> due(probe) == Some(Action::QueryClock),
        probe.step == Step::UseExternalClock ==> due(probe) == Some(Action::UseExternalClock),
        probe.step == Step::Reset ==> due(probe) == Some(Action::ResetAll),
        probe.step == Step::SetPower ==> due(probe) == Some(Action::SetPower { power: 0x0e }),
        probe.step == Step::EnableInterrupts ==> due(probe) == Some(Action::EnableInterrupts),
        probe.step == Step::InitCard ==> due(probe) == Some(Action::InitCard),
        probe.step matches Step::Register { capacity_blocks } ==> due(probe) == Some(
            Action::Register { capacity_blocks },
        ),
        probe.step == Step::Finished || probe.step is Failed <==> due(probe) is None,
{
}

/// A probe in which everything works: the registers are mapped; the clock, where
/// the controller has one, is found, got and kept; the rate is left to a clock
/// that is being kept; then come reset, supply, interrupts, card and
/// registration.
pub proof fn lemma_probe_works(probe: Probe, capacity: Option<u64>, capacity_blocks: u64)
    ensures
        ({
            let at = |step: Step| Probe { step, ..probe };
            &&& next_step(at(Step::MapRegisters), Event::Done) == if probe.core is Some {
                Step::FindClockDevice
            } else {
                Step::QueryClock
            }
            &&& next_step(at(Step::FindClockDevice), Event::Done) == Step::GetClock
            &&& next_step(at(Step::GetClock), Event::Done) == Step::StoreClock
            &&& next_step(at(Step::StoreClock), Event::Done) == Step::QueryClock
            &&& next_step(at(Step::QueryClock), Event::ClockKept(true)) == Step::UseExternalClock
            &&& next_step(at(Step::QueryClock), Event::ClockKept(false)) == Step::Reset
            &&& next_step(at(Step::UseExternalClock), Event::Done) == Step::Reset
            &&& next_step(at(Step::Reset), Event::Done) == Step::SetPower
            &&& next_step(at(Step::SetPower), Event::Done) == Step::EnableInterrupts
            &&& next_step(at(Step::EnableInterrupts), Event::Done) == Step::InitCard
            &&& next_step(at(Step::InitCard), Event::Card(capacity)) == (Step::Register {
                capacity_blocks: if capacity is Some {
                    capacity->0
                } else {
                    0
                },
            })
            &&& next_step(at(Step::Register { capacity_blocks }), Event::Done) == Step::Finished
        }),
{
}

/// How a probe fails: each of its actions with the error of its own, and with
/// what the controller is made of.
pub proof fn lemma_probe_fails(probe: Probe, err: Error)
    ensures
        ({
            let at = |step: Step| Probe { step, ..probe };
            &&& next_step(at(Step::MapRegisters), Event::Refused) == Step::Failed(
                ProbeError::Unmapped,
            )
            &&& probe.core matches Some(core) ==> next_step(
                at(Step::FindClockDevice),
                Event::Refused,
            ) == Step::Failed(ProbeError::NoClockDevice { phandle: core.phandle }) && next_step(
                at(Step::GetClock),
                Event::Refused,
            ) == Step::Failed(ProbeError::ClockNotRegistered { phandle: core.phandle })
            &&& next_step(at(Step::Reset), Event::HostFailed(err)) == Step::Failed(
                ProbeError::Init { address: probe.address, size: probe.size, err },
            )
            &&& next_step(at(Step::InitCard), Event::HostFailed(err)) == Step::Failed(
                if means_absent_card(err) {
                    ProbeError::NotMatch
                } else {
                    ProbeError::Init { address: probe.address, size: probe.size, err }
                },
            )
        }),
{
}

/// A probe fails only where an action has failed.
pub proof fn lemma_failed_for_a_reason(probe: Probe, event: Event)
    requires
        can_follow(probe.step, event),
    ensures
        next_step(probe, event) is Failed <==> event == Event::Refused || event is HostFailed,
{
}

/// A controller whose core clock is named is never reset before the clock's
/// device has been found, and the clock got and kept.
pub proof fn lemma_clock_before_reset(probe: Probe, events: Seq<Event>)
    requires
        probe.step == Step::MapRegisters,
        probe.core is Some,
        can_happen(probe, events),
        after_events(probe, events).step == Step::QueryClock,
    ensures
        events == seq![Event::Done, Event::Done, Event::Done, Event::Done],
{
    reveal_with_fuel(after_events, 6);
    reveal_with_fuel(can_happen, 6);
    lemma_probe_kept(probe, events);
    let e1 = events.drop_last();
    lemma_probe_kept(probe, e1);
    assert(after_events(probe, e1).step == Step::StoreClock);
    let e2 = e1.drop_last();
    assert(after_events(probe, e2).step == Step::GetClock);
    let e3 = e2.drop_last();
    assert(after_events(probe, e3).step == Step::FindClockDevice);
    let e4 = e3.drop_last();
    assert(after_events(probe, e4).step == Step::MapRegisters);
    lemma_still_mapping(probe, e4);
    assert(events =~= seq![Event::Done, Event::Done, Event::Done, Event::Done]);
}

proof fn lemma_probe_kept(probe: Probe, events: Seq<Event>)
    ensures
        after_events(probe, events).core == probe.core,
        after_events(probe, events).address == probe.address,
        after_events(probe, events).size == probe.size,
    decreases events.len(),
{
    if events.len() > 0 {
        lemma_probe_kept(probe, events.drop_last());
    }
}

proof fn lemma_still_mapping(probe: Probe, events: Seq<Event>)
    requires
        can_happen(probe, events),
        after_events(probe, events).step == Step::MapRegisters,
    ensures
        events.len() == 0,
{
    if events.len() > 0 {
        let before = after_events(probe, events.drop_last());
        assert(can_follow(before.step, events.last()));
    }
}

/// The block of the card that a request asks for: the requested one, and the
/// index behind it, which counts in 32 bits. It cannot be asked for where its
/// number takes more.
pub proof fn lemma_asked_block(submission: Submission)
    ensures
        submission.stage matches Stage::ReadBlock { index } ==> {
            let number = submission.start_block + index as int % 0x1_0000_0000;
            &&& block_read(submission.start_block, index as int) == number
            &&& submission.reads_in_range() <==> number <= 0xffff_ffff
        },
        !(submission.stage is ReadBlock) ==> !submission.reads_in_range(),
{
}

/// Which transfer is tried for a buffer, and why none is: an empty buffer, one at
/// address 0, and one that holds a broken block, in that order.
pub proof fn lemma_tried_transfers(
    kind: RequestKind,
    start_block: u32,
    size: usize,
    is_null: bool,
    high_capacity: bool,
)
    ensures
        ({
            let attempt = dma_attempt(kind, start_block, size, is_null, high_capacity);
            let transfer = dma_transfer(kind, start_block, size, high_capacity);
            let read = kind == RequestKind::Read;
            &&& size == 0 ==> attempt == Err::<DmaTransfer, BlkError>(
                BlkError::Other(
                    if read {
                        Reason::EmptyDmaRead
                    } else {
                        Reason::EmptyDmaWrite
                    },
                ),
            )
            &&& size > 0 && is_null ==> attempt == Err::<DmaTransfer, BlkError>(
                BlkError::Other(
                    if read {
                        Reason::NullDmaRead
                    } else {
                        Reason::NullDmaWrite
                    },
                ),
            )
            &&& size > 0 && !is_null ==> attempt == transfer
            &&& size % 512 != 0 ==> transfer == Err::<DmaTransfer, BlkError>(
                BlkError::Other(
                    if read {
                        Reason::DmaReadNotAligned
                    } else {
                        Reason::DmaWriteNotAligned
                    },
                ),
            )
            &&& size % 512 == 0 ==> (transfer matches Ok(moved) && moved.size == size
                && moved.card_addr == if high_capacity {
                start_block as int
            } else if start_block * 512 <= 0xffff_ffff {
                start_block * 512
            } else {
                0xffff_ffff
            })
        }),
{
}

/// What can come of each action of a probe.
pub proof fn lemma_possible_events(event: Event, capacity_blocks: u64, err: ProbeError)
    ensures
        can_follow(Step::MapRegisters, event) <==> event == Event::Done || event == Event::Refused,
        can_follow(Step::FindClockDevice, event) <==> event == Event::Done || event
            == Event::Refused,
        can_follow(Step::GetClock, event) <==> event == Event::Done || event == Event::Refused,
        can_follow(Step::StoreClock, event) <==> event == Event::Done,
        can_follow(Step::QueryClock, event) <==> event is ClockKept,
        can_follow(Step::UseExternalClock, event) <==> event == Event::Done,
        can_follow(Step::Reset, event) <==> event == Event::Done || event is HostFailed,
        can_follow(Step::SetPower, event) <==> event == Event::Done,
        can_follow(Step::EnableInterrupts, event) <==> event == Event::Done,
        can_follow(Step::InitCard, event) <==> event is Card || event is HostFailed,
        can_follow(Step::Register { capacity_blocks }, event) <==> event == Event::Done,
        !can_follow(Step::Finished, event),
        !can_follow(Step::Failed(err), event),
{
}

} // verus!
