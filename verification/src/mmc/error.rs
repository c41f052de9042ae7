//! What can go wrong between the driver, the host and the card.
use vstd::prelude::*;

verus! {

/// Where in the work on a command a fault was seen.
#[derive(Clone, Copy, Debug, PartialEq, Eq, Structural)]
pub enum Phase {
    Unspecified,
    Init,
    CommandSend,
    ResponseWait,
    DataWrite,
    DataRead,
    BusyWait,
    Switch,
    Erase,
}

/// What was under way when a fault was seen.
#[derive(Clone, Copy, Debug, PartialEq, Eq, Structural)]
pub struct ErrorContext {
    /// How far the work had come.
    pub phase: Phase,
    /// The index of the command, where there was one.
    pub cmd: Option<u8>,
}

/// What a card reports in its status.
#[derive(Clone, Copy, Debug, PartialEq, Eq, Structural)]
pub enum CardError {
    IllegalCommand,
    CommandCrcFailed,
    EraseSequence,
    AddressError,
    CardEccFailed,
    ControllerError,
    Unknown(u8),
}

/// How the host or the card fails.
#[derive(Clone, Copy, Debug, PartialEq, Eq, Structural)]
pub enum Error {
    Timeout(ErrorContext),
    Crc(ErrorContext),
    NoCard,
    UnsupportedCommand,
    BadResponse(ErrorContext),
    CardError(CardError),
    WriteError(ErrorContext),
    ReadError(ErrorContext),
    Misaligned,
    InvalidArgument,
    CardLocked,
    BusError(ErrorContext),
}

/// Why a request was turned down or given up, other than by a retry or for
/// want of support.
#[derive(Clone, Copy, Debug, PartialEq, Eq, Structural)]
pub enum Reason {
    ReadNotAligned,
    WriteNotAligned,
    EmptyDmaRead,
    NullDmaRead,
    DmaReadNotAligned,
    DmaReadTooSmall,
    EmptyDmaWrite,
    NullDmaWrite,
    DmaWriteNotAligned,
    DmaWriteTooSmall,
    CardRequestNotAligned,
    Io,
}

/// What `reason` says in words.
pub open spec fn reason_text(reason: Reason) -> Seq<char> {
    match reason {
        Reason::ReadNotAligned => "read buffer is not block aligned"@,
        Reason::WriteNotAligned => "write buffer is not block aligned"@,
        Reason::EmptyDmaRead => "zero-sized DMA read buffer"@,
        Reason::NullDmaRead => "null DMA read buffer"@,
        Reason::DmaReadNotAligned => "DMA read buffer is not block aligned"@,
        Reason::DmaReadTooSmall => "DMA read buffer is smaller than one block"@,
        Reason::EmptyDmaWrite => "zero-sized DMA write buffer"@,
        Reason::NullDmaWrite => "null DMA write buffer"@,
        Reason::DmaWriteNotAligned => "DMA write buffer is not block aligned"@,
        Reason::DmaWriteTooSmall => "DMA write buffer is smaller than one block"@,
        Reason::CardRequestNotAligned => "SD/MMC request is not block aligned"@,
        Reason::Io => "SDHCI I/O error"@,
    }
}

impl Reason {
    /// The reason in words.
    pub fn text(self) -> (text: &'static str)
        ensures
            text@ == reason_text(self),
    {
        match self {
            Reason::ReadNotAligned => "read buffer is not block aligned",
            Reason::WriteNotAligned => "write buffer is not block aligned",
            Reason::EmptyDmaRead => "zero-sized DMA read buffer",
            Reason::NullDmaRead => "null DMA read buffer",
            Reason::DmaReadNotAligned => "DMA read buffer is not block aligned",
            Reason::DmaReadTooSmall => "DMA read buffer is smaller than one block",
            Reason::EmptyDmaWrite => "zero-sized DMA write buffer",
            Reason::NullDmaWrite => "null DMA write buffer",
            Reason::DmaWriteNotAligned => "DMA write buffer is not block aligned",
            Reason::DmaWriteTooSmall => "DMA write buffer is smaller than one block",
            Reason::CardRequestNotAligned => "SD/MMC request is not block aligned",
            Reason::Io => "SDHCI I/O error",
        }
    }
}

/// How a request to the block device fails.
#[derive(Clone, Copy, Debug, PartialEq, Eq, Structural)]
pub enum BlkError {
    NotSupported,
    Retry,
    Other(Reason),
}

/// How probing a controller fails.
#[derive(Clone, Copy, Debug, PartialEq, Eq, Structural)]
pub enum ProbeError {
    /// No card answers: the controller is skipped.
    NotMatch,
    /// The node has no `reg`.
    NoRegister,
    /// The registers could not be mapped.
    Unmapped,
    /// The phandle of the core clock belongs to no device.
    NoClockDevice { phandle: u32 },
    /// The device of the core clock is not registered.
    ClockNotRegistered { phandle: u32 },
    /// The host or the card failed.
    Init { address: u64, size: u64, err: Error },
}

/// The failure of a clock that the host depends on.
pub open spec fn clock_failure() -> Error {
    Error::BusError(ErrorContext { phase: Phase::Init, cmd: None })
}

/// The failure of a clock that the host depends on.
pub fn clock_error() -> (err: Error)
    ensures
        err == clock_failure(),
{
    Error::BusError(ErrorContext { phase: Phase::Init, cmd: None })
}

/// Whether a fault was seen while a command was being put to the card.
pub open spec fn seen_at_command(ctx: ErrorContext) -> bool {
    ctx.cmd is Some && (ctx.phase == Phase::CommandSend || ctx.phase == Phase::ResponseWait
        || ctx.phase == Phase::Init)
}

/// Whether `err`, met while a card is initialized, says that there is none.
pub open spec fn means_absent_card(err: Error) -> bool {
    match err {
        Error::NoCard => true,
        Error::Timeout(ctx) => seen_at_command(ctx),
        Error::Crc(ctx) => seen_at_command(ctx),
        Error::BadResponse(ctx) => seen_at_command(ctx),
        _ => false,
    }
}

/// Whether `err`, met while a card is initialized, says that there is none.
pub fn is_absent_card_init_error(err: Error) -> (absent: bool)
    ensures
        absent == means_absent_card(err),
{
    match err {
        Error::NoCard => true,
        Error::Timeout(ctx) | Error::Crc(ctx) | Error::BadResponse(ctx) => {
            ctx.cmd.is_some() && matches!(
                ctx.phase,
                Phase::CommandSend | Phase::ResponseWait | Phase::Init
            )
        },
        _ => false,
    }
}

/// The failure of the host at `address`.
pub fn init_error(address: u64, size: u64, err: Error) -> (failure: ProbeError)
    ensures
        failure == (ProbeError::Init { address, size, err }),
{
    ProbeError::Init { address, size, err }
}

/// What a card's failure to initialize means for its controller.
pub open spec fn card_failure(address: u64, size: u64, err: Error) -> ProbeError {
    if means_absent_card(err) {
        ProbeError::NotMatch
    } else {
        ProbeError::Init { address, size, err }
    }
}

/// What a card's failure to initialize means for its controller.
pub fn card_init_error(address: u64, size: u64, err: Error) -> (failure: ProbeError)
    ensures
        failure == card_failure(address, size, err),
{
    if is_absent_card_init_error(err) {
        return ProbeError::NotMatch;
    }
    init_error(address, size, err)
}

/// How a request fails when the host or the card fails with `err`.
pub open spec fn blk_error_of(err: Error) -> BlkError {
    match err {
        Error::Timeout(_) => BlkError::Retry,
        Error::NoCard => BlkError::NotSupported,
        Error::UnsupportedCommand => BlkError::NotSupported,
        Error::CardLocked => BlkError::NotSupported,
        Error::Misaligned => BlkError::Other(Reason::CardRequestNotAligned),
        Error::InvalidArgument => BlkError::Other(Reason::CardRequestNotAligned),
        _ => BlkError::Other(Reason::Io),
    }
}

/// How a request fails when the host or the card fails with `err`.
pub fn map_dev_err_to_blk_err(err: Error) -> (failure: BlkError)
    ensures
        failure == blk_error_of(err),
{
    match err {
        Error::Timeout(_) => BlkError::Retry,
        Error::NoCard | Error::UnsupportedCommand | Error::CardLocked => BlkError::NotSupported,
        Error::Misaligned | Error::InvalidArgument => BlkError::Other(
            Reason::CardRequestNotAligned,
        ),
        _ => BlkError::Other(Reason::Io),
    }
}

/// A request is to be retried exactly when the card has not answered in time.
pub proof fn lemma_retry_is_timeout(err: Error)
    ensures
        blk_error_of(err) == BlkError::Retry <==> err is Timeout,
{
}

/// A failing clock is never taken for an absent card.
pub proof fn lemma_clock_failure_is_reported(address: u64, size: u64)
    ensures
        card_failure(address, size, clock_failure()) == (ProbeError::Init {
            address,
            size,
            err: clock_failure(),
        }),
{
}

} // verus!
