//! Classification of header bytes and decoding of fixed-size payloads.

use crate::packet::{MalformedPacket, MalformedView, PacketView, TimestampDataRelation, TracePacket};
use vstd::prelude::*;

verus! {

/// How a header is completed: the bytes or bits that follow it.
#[derive(Debug, Clone, Copy, PartialEq, Eq, Structural)]
pub enum PacketStub {
    /// Zero bits of a synchronization packet follow; the count of those
    /// already seen.
    Sync(usize),
    /// `expected_size` payload bytes of an instrumentation packet follow.
    Instrumentation { port: u8, expected_size: usize },
    /// `expected_size` payload bytes of a hardware source packet follow.
    HardwareSource { disc_id: u8, expected_size: usize },
    /// A continuation-terminated local timestamp follows.
    LocalTimestamp { data_relation: TimestampDataRelation },
    /// A continuation-terminated low global timestamp follows.
    GlobalTimestamp1,
    /// A continuation-terminated high global timestamp follows.
    GlobalTimestamp2,
}

/// A classified header: a whole packet, or a stub to complete.
#[derive(Debug, Clone, PartialEq)]
pub enum HeaderVariant {
    Packet(TracePacket),
    Stub(PacketStub),
}

/// The mathematical value of a classified header, or of its rejection.
pub enum HeaderClass {
    Packet(PacketView),
    Stub(PacketStub),
    Invalid(MalformedView),
}

/// The view of what [`decode_header`] returns.
pub open spec fn header_view(r: Result<HeaderVariant, MalformedPacket>) -> HeaderClass {
    match r {
        Ok(HeaderVariant::Packet(p)) => HeaderClass::Packet(p@),
        Ok(HeaderVariant::Stub(s)) => HeaderClass::Stub(s),
        Err(e) => HeaderClass::Invalid(e@),
    }
}

/// The payload length that a source header's size field `ss` (1, 2 or 3)
/// announces.
pub open spec fn source_size(ss: u8) -> usize {
    if ss == 1 {
        1
    } else if ss == 2 {
        2
    } else {
        4
    }
}

/// Whether `a` is a hardware source discriminator that the protocol defines.
pub open spec fn valid_disc(a: u8) -> bool {
    a <= 2 || (8 <= a && a <= 23)
}

/// The relation that the bits `rr` of a first-format local timestamp
/// header give.
pub open spec fn relation_of(rr: u8) -> TimestampDataRelation {
    if rr == 0 {
        TimestampDataRelation::Sync
    } else if rr == 1 {
        TimestampDataRelation::UnknownDelay
    } else if rr == 2 {
        TimestampDataRelation::AssocEventDelay
    } else {
        TimestampDataRelation::UnknownAssocEventDelay
    }
}

/// What a header byte means, by the table of the protocol, tried in order.
/// A source header whose size field `ss` is `00` matches no row and is an
/// invalid header, so `MalformedPacket::InvalidSourcePayload` is never
/// produced.
pub open spec fn header_class(h: u8) -> HeaderClass {
    if h == 0 {
        HeaderClass::Stub(PacketStub::Sync(8))
    } else if h == 0x70 {
        HeaderClass::Packet(PacketView::Overflow)
    } else if h & 0xcf == 0xc0 {
        HeaderClass::Stub(PacketStub::LocalTimestamp { data_relation: relation_of((h >> 4) & 3) })
    } else if h & 0x8f == 0 {
        HeaderClass::Packet(PacketView::LocalTimestamp2 { ts: h >> 4 })
    } else if h == 0x94 {
        HeaderClass::Stub(PacketStub::GlobalTimestamp1)
    } else if h == 0xb4 {
        HeaderClass::Stub(PacketStub::GlobalTimestamp2)
    } else if h & 0x8f == 0x08 {
        HeaderClass::Packet(PacketView::Extension { page: (h >> 4) & 7 })
    } else if h & 3 == 0 {
        HeaderClass::Invalid(MalformedView::InvalidHeader(h))
    } else if h & 4 == 0 {
        HeaderClass::Stub(
            PacketStub::Instrumentation { port: h >> 3, expected_size: source_size(h & 3) },
        )
    } else if valid_disc(h >> 3) {
        HeaderClass::Stub(
            PacketStub::HardwareSource { disc_id: h >> 3, expected_size: source_size(h & 3) },
        )
    } else {
        HeaderClass::Invalid(
            MalformedView::InvalidHardwareDisc { disc_id: h >> 3, size: (h & 3) as usize },
        )
    }
}

fn payload_size(ss: u8) -> (r: usize)
    requires
        1 <= ss <= 3,
    ensures
        r == source_size(ss),
{
    if ss == 1 {
        1
    } else if ss == 2 {
        2
    } else {
        4
    }
}

/// Classifies the first byte of a packet: a whole packet, a stub that
/// says what follows, or an invalid header. A source header with size
/// field `00` is an invalid header (`MalformedPacket::InvalidHeader`).
pub fn decode_header(header: u8) -> (r: Result<HeaderVariant, MalformedPacket>)
    ensures
        header_view(r) == header_class(header),
{
    let h = header;
    if h == 0 {
        Ok(HeaderVariant::Stub(PacketStub::Sync(8)))
    } else if h == 0x70 {
        Ok(HeaderVariant::Packet(TracePacket::Overflow))
    } else if h & 0xcf == 0xc0 {
        let rr = (h >> 4) & 3;
        let data_relation = if rr == 0 {
            TimestampDataRelation::Sync
        } else if rr == 1 {
            TimestampDataRelation::UnknownDelay
        } else if rr == 2 {
            TimestampDataRelation::AssocEventDelay
        } else {
            TimestampDataRelation::UnknownAssocEventDelay
        };
        Ok(HeaderVariant::Stub(PacketStub::LocalTimestamp { data_relation }))
    } else if h & 0x8f == 0 {
        Ok(HeaderVariant::Packet(TracePacket::LocalTimestamp2 { ts: h >> 4 }))
    } else if h == 0x94 {
        Ok(HeaderVariant::Stub(PacketStub::GlobalTimestamp1))
    } else if h == 0xb4 {
        Ok(HeaderVariant::Stub(PacketStub::GlobalTimestamp2))
    } else if h & 0x8f == 0x08 {
        Ok(HeaderVariant::Packet(TracePacket::Extension { page: (h >> 4) & 7 }))
    } else if h & 3 == 0 {
        Err(MalformedPacket::InvalidHeader(h))
    } else {
        let ss = h & 3;
        let a = h >> 3;
        assert(1 <= ss <= 3) by (bit_vector)
            requires
                ss == h & 3,
                !(h & 3 == 0),
        ;
        if h & 4 == 0 {
            Ok(HeaderVariant::Stub(PacketStub::Instrumentation { port: a, expected_size: payload_size(ss) }))
        } else if a <= 2 || (8 <= a && a <= 23) {
            Ok(HeaderVariant::Stub(PacketStub::HardwareSource { disc_id: a, expected_size: payload_size(ss) }))
        } else {
            Err(MalformedPacket::InvalidHardwareDisc { disc_id: a, size: ss as usize })
        }
    }
}

} // verus!
