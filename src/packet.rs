//! The packets of the protocol and the ways in which decoding fails.

use vstd::prelude::*;

verus! {

/// A system exception of the processor (ARMv7-M exception numbers 2 to 15).
#[derive(Debug, Clone, Copy, PartialEq, Eq, Structural)]
pub enum Exception {
    NonMaskableInt,
    HardFault,
    MemoryManagement,
    BusFault,
    UsageFault,
    SecureFault,
    SVCall,
    DebugMonitor,
    PendSV,
    SysTick,
}

/// The active vector of the processor: thread mode, a system exception or
/// an external interrupt.
#[derive(Debug, Clone, Copy, PartialEq, Eq, Structural)]
pub enum VectActive {
    ThreadMode,
    Exception(Exception),
    Interrupt { irqn: u8 },
}

/// What the processor did with an exception. (Table D4-6)
#[derive(Debug, Clone, Copy, PartialEq, Eq, Structural)]
pub enum ExceptionAction {
    Entered,
    Exited,
    Returned,
}

/// The kind of a traced memory access.
#[derive(Debug, Clone, Copy, PartialEq, Eq, Structural)]
pub enum MemoryAccessType {
    Read,
    Write,
}

/// How a local timestamp relates to the ITM or DWT packets it closes.
/// (Appendix D4.2.4)
#[derive(Debug, Clone, Copy, PartialEq, Eq, Structural)]
pub enum TimestampDataRelation {
    /// The timestamp is synchronous to the data.
    Sync,
    /// The timestamp is delayed relative to the data.
    UnknownDelay,
    /// The data packet is delayed relative to its event.
    AssocEventDelay,
    /// Both delays at once.
    UnknownAssocEventDelay,
}

/// A decoded packet.
#[derive(Debug, Clone, PartialEq)]
pub enum TracePacket {
    /// The synchronization pattern: at least 47 zero bits and a set bit.
    Sync,
    /// A trace source had to drop data, or the local timestamp counter
    /// overflowed.
    Overflow,
    /// A local timestamp delta and its relation to the data packets.
    LocalTimestamp1 { ts: u64, data_relation: TimestampDataRelation },
    /// A local timestamp delta of 1 to 6, synchronous to the data.
    LocalTimestamp2 { ts: u8 },
    /// Bits \[25:0\] of the global timestamp.
    GlobalTimestamp1 { ts: u64, wrap: bool, clkch: bool },
    /// The upper bits of the global timestamp, from bit 26 on, unshifted.
    GlobalTimestamp2 { ts: u64 },
    /// The stimulus port page of the following instrumentation packets.
    Extension { page: u8 },
    /// A payload that software wrote to a stimulus port.
    Instrumentation { port: u8, payload: Vec<u8> },
    /// Event counters that wrapped.
    EventCounterWrap { cyc: bool, fold: bool, lsu: bool, sleep: bool, exc: bool, cpi: bool },
    /// The processor entered, left or returned to an exception.
    ExceptionTrace { exception: VectActive, action: ExceptionAction },
    /// A periodic sample of the program counter; `None` while sleeping.
    PCSample { pc: Option<u32> },
    /// A comparator matched the program counter.
    DataTracePC { comparator: u8, pc: u32 },
    /// A comparator matched an address; bits \[15:0\] of it.
    DataTraceAddress { comparator: u8, data: Vec<u8> },
    /// A comparator matched a data access.
    DataTraceValue { comparator: u8, access_type: MemoryAccessType, value: Vec<u8> },
}

/// A header or payload that could not be decoded.
#[derive(Debug, Clone, PartialEq)]
pub enum MalformedPacket {
    /// The header byte matches no packet.
    InvalidHeader(u8),
    /// A hardware source payload whose discriminator or length is wrong.
    InvalidHardwarePacket { disc_id: u8, payload: Vec<u8> },
    /// A hardware source header with an unknown discriminator; `size` is
    /// the header's size field.
    InvalidHardwareDisc { disc_id: u8, size: usize },
    /// An exception trace with an unknown exception number or function.
    InvalidExceptionTrace { exception: u16, function: u8 },
    /// A PC sample payload of a wrong length.
    InvalidPCSampleSize { payload: Vec<u8> },
    /// A second global timestamp payload that is neither 4 nor 6 bytes long.
    InvalidGTS2Size { payload: Vec<u8> },
    /// A set bit came after fewer than 47 zero bits of a synchronization
    /// packet; the zero bits counted.
    InvalidSync(usize),
    /// A source packet header with an invalid payload size.
    InvalidSourcePayload { header: u8, size: u8 },
}

/// The mathematical value of a [`TracePacket`]: byte vectors become
/// sequences.
pub enum PacketView {
    Sync,
    Overflow,
    LocalTimestamp1 { ts: u64, data_relation: TimestampDataRelation },
    LocalTimestamp2 { ts: u8 },
    GlobalTimestamp1 { ts: u64, wrap: bool, clkch: bool },
    GlobalTimestamp2 { ts: u64 },
    Extension { page: u8 },
    Instrumentation { port: u8, payload: Seq<u8> },
    EventCounterWrap { cyc: bool, fold: bool, lsu: bool, sleep: bool, exc: bool, cpi: bool },
    ExceptionTrace { exception: VectActive, action: ExceptionAction },
    PCSample { pc: Option<u32> },
    DataTracePC { comparator: u8, pc: u32 },
    DataTraceAddress { comparator: u8, data: Seq<u8> },
    DataTraceValue { comparator: u8, access_type: MemoryAccessType, value: Seq<u8> },
}

/// The mathematical value of a [`MalformedPacket`].
pub enum MalformedView {
    InvalidHeader(u8),
    InvalidHardwarePacket { disc_id: u8, payload: Seq<u8> },
    InvalidHardwareDisc { disc_id: u8, size: usize },
    InvalidExceptionTrace { exception: u16, function: u8 },
    InvalidPCSampleSize { payload: Seq<u8> },
    InvalidGTS2Size { payload: Seq<u8> },
    InvalidSync(usize),
    InvalidSourcePayload { header: u8, size: u8 },
}

impl View for TracePacket {
    type V = PacketView;

    open spec fn view(&self) -> PacketView {
        match *self {
            TracePacket::Sync => PacketView::Sync,
            TracePacket::Overflow => PacketView::Overflow,
            TracePacket::LocalTimestamp1 { ts, data_relation } => PacketView::LocalTimestamp1 {
                ts,
                data_relation,
            },
            TracePacket::LocalTimestamp2 { ts } => PacketView::LocalTimestamp2 { ts },
            TracePacket::GlobalTimestamp1 { ts, wrap, clkch } => PacketView::GlobalTimestamp1 {
                ts,
                wrap,
                clkch,
            },
            TracePacket::GlobalTimestamp2 { ts } => PacketView::GlobalTimestamp2 { ts },
            TracePacket::Extension { page } => PacketView::Extension { page },
            TracePacket::Instrumentation { port, payload } => PacketView::Instrumentation {
                port,
                payload: payload@,
            },
            TracePacket::EventCounterWrap {
                cyc,
                fold,
                lsu,
                sleep,
                exc,
                cpi,
            } => PacketView::EventCounterWrap { cyc, fold, lsu, sleep, exc, cpi },
            TracePacket::ExceptionTrace { exception, action } => PacketView::ExceptionTrace {
                exception,
                action,
            },
            TracePacket::PCSample { pc } => PacketView::PCSample { pc },
            TracePacket::DataTracePC { comparator, pc } => PacketView::DataTracePC {
                comparator,
                pc,
            },
            TracePacket::DataTraceAddress { comparator, data } => PacketView::DataTraceAddress {
                comparator,
                data: data@,
            },
            TracePacket::DataTraceValue {
                comparator,
                access_type,
                value,
            } => PacketView::DataTraceValue { comparator, access_type, value: value@ },
        }
    }
}

impl View for MalformedPacket {
    type V = MalformedView;

    open spec fn view(&self) -> MalformedView {
        match *self {
            MalformedPacket::InvalidHeader(h) => MalformedView::InvalidHeader(h),
            MalformedPacket::InvalidHardwarePacket {
                disc_id,
                payload,
            } => MalformedView::InvalidHardwarePacket { disc_id, payload: payload@ },
            MalformedPacket::InvalidHardwareDisc { disc_id, size } =>
                MalformedView::InvalidHardwareDisc { disc_id, size },
            MalformedPacket::InvalidExceptionTrace { exception, function } =>
                MalformedView::InvalidExceptionTrace { exception, function },
            MalformedPacket::InvalidPCSampleSize { payload } => MalformedView::InvalidPCSampleSize {
                payload: payload@,
            },
            MalformedPacket::InvalidGTS2Size { payload } => MalformedView::InvalidGTS2Size {
                payload: payload@,
            },
            MalformedPacket::InvalidSync(n) => MalformedView::InvalidSync(n),
            MalformedPacket::InvalidSourcePayload { header, size } =>
                MalformedView::InvalidSourcePayload { header, size },
        }
    }
}

/// The view of a decoding outcome.
pub open spec fn outcome_view(r: Result<TracePacket, MalformedPacket>) -> Result<PacketView, MalformedView> {
    match r {
        Ok(p) => Ok(p@),
        Err(e) => Err(e@),
    }
}

} // verus!
