use itm_decode::{
    decode_header, Decoder, DecoderOptions, Exception, ExceptionAction, HeaderVariant,
    MalformedPacket, MemoryAccessType, PacketStub, TimestampDataRelation, TracePacket, VectActive,
};

fn decode_all(bytes: &[u8]) -> Vec<Result<TracePacket, MalformedPacket>> {
    let mut decoder = Decoder::new(DecoderOptions::default());
    decoder.push(bytes);
    let mut out = Vec::new();
    loop {
        match decoder.next() {
            Ok(None) => break,
            Ok(Some(p)) => out.push(Ok(p)),
            Err(e) => out.push(Err(e)),
        }
    }
    out
}

fn decode_one(bytes: &[u8]) -> Result<TracePacket, MalformedPacket> {
    let out = decode_all(bytes);
    assert_eq!(out.len(), 1, "{:?}", out);
    out[0].clone()
}

#[test]
fn overflow() {
    assert_eq!(decode_one(&[0x70]), Ok(TracePacket::Overflow));
}

#[test]
fn sync() {
    assert_eq!(decode_one(&[0, 0, 0, 0, 0, 0, 0x80]), Ok(TracePacket::Sync));
}

#[test]
fn sync_with_47_zero_bits() {
    assert_eq!(decode_one(&[0, 0, 0, 0, 0, 0x80]), Ok(TracePacket::Sync));
}

#[test]
fn sync_realigns_at_the_following_bit() {
    // 48 zero bits, the set bit at bit 0 of the seventh byte, then 0x70
    // across the rest of that byte and the first bit of the next.
    let mut decoder = Decoder::new(DecoderOptions::default());
    decoder.push(&[0, 0, 0, 0, 0, 0, 0xe1, 0x00]);
    assert_eq!(decoder.next(), Ok(Some(TracePacket::Sync)));
    assert_eq!(decoder.next(), Ok(Some(TracePacket::Overflow)));
    assert_eq!(decoder.next(), Ok(None));
}

#[test]
fn sync_across_pushes() {
    let mut decoder = Decoder::new(DecoderOptions::default());
    decoder.push(&[0, 0, 0]);
    assert_eq!(decoder.next(), Ok(None));
    decoder.push(&[0, 0, 0]);
    assert_eq!(decoder.next(), Ok(None));
    decoder.push(&[0x80, 0x70]);
    assert_eq!(decoder.next(), Ok(Some(TracePacket::Sync)));
    assert_eq!(decoder.next(), Ok(Some(TracePacket::Overflow)));
}

#[test]
fn invalid_sync() {
    assert_eq!(decode_one(&[0x00, 0x01]), Err(MalformedPacket::InvalidSync(8)));
}

#[test]
fn instrumentation_port_1() {
    // Header 00001_0_01: port 1, one payload byte.
    assert_eq!(
        decode_one(&[0x09, 0xab]),
        Ok(TracePacket::Instrumentation { port: 1, payload: vec![0xab] })
    );
    // Header 0x0a is 00001_0_10: port 1, two payload bytes.
    let mut decoder = Decoder::new(DecoderOptions::default());
    decoder.push(&[0x0a, 0xab]);
    assert_eq!(decoder.next(), Ok(None));
    decoder.push(&[0xcd]);
    assert_eq!(
        decoder.next(),
        Ok(Some(TracePacket::Instrumentation { port: 1, payload: vec![0xab, 0xcd] }))
    );
}

#[test]
fn instrumentation_four_bytes() {
    assert_eq!(
        decode_one(&[0xfb, 1, 2, 3, 4]),
        Ok(TracePacket::Instrumentation { port: 31, payload: vec![1, 2, 3, 4] })
    );
}

#[test]
fn pc_sample_valid() {
    assert_eq!(
        decode_one(&[0x17, 0x44, 0x33, 0x22, 0x11]),
        Ok(TracePacket::PCSample { pc: Some(0x1122_3344) })
    );
}

#[test]
fn pc_sample_sleep() {
    assert_eq!(decode_one(&[0x15, 0x00]), Ok(TracePacket::PCSample { pc: None }));
}

#[test]
fn pc_sample_invalid_size() {
    assert_eq!(
        decode_one(&[0x16, 0x00, 0x00]),
        Err(MalformedPacket::InvalidPCSampleSize { payload: vec![0, 0] })
    );
    assert_eq!(
        decode_one(&[0x15, 0x01]),
        Err(MalformedPacket::InvalidPCSampleSize { payload: vec![1] })
    );
}

#[test]
fn local_timestamp1_sync() {
    assert_eq!(
        decode_one(&[0xc0, 0x01]),
        Ok(TracePacket::LocalTimestamp1 { ts: 1, data_relation: TimestampDataRelation::Sync })
    );
}

#[test]
fn local_timestamp1_multi_byte() {
    assert_eq!(
        decode_one(&[0xd0, 0x81, 0x01]),
        Ok(TracePacket::LocalTimestamp1 {
            ts: 129,
            data_relation: TimestampDataRelation::UnknownDelay
        })
    );
    assert_eq!(
        decode_one(&[0xf0, 0x05]),
        Ok(TracePacket::LocalTimestamp1 {
            ts: 5,
            data_relation: TimestampDataRelation::UnknownAssocEventDelay
        })
    );
}

#[test]
fn local_timestamp2() {
    assert_eq!(decode_one(&[0x30]), Ok(TracePacket::LocalTimestamp2 { ts: 3 }));
}

#[test]
fn invalid_header() {
    assert_eq!(decode_one(&[0x04]), Err(MalformedPacket::InvalidHeader(0x04)));
}

#[test]
fn extension() {
    assert_eq!(decode_one(&[0x38]), Ok(TracePacket::Extension { page: 3 }));
}

#[test]
fn global_timestamps() {
    assert_eq!(
        decode_one(&[0x94, 0x81, 0x60]),
        Ok(TracePacket::GlobalTimestamp1 { ts: 1, wrap: true, clkch: true })
    );
    assert_eq!(
        decode_one(&[0x94, 0x81, 0x00]),
        Ok(TracePacket::GlobalTimestamp1 { ts: 1, wrap: false, clkch: false })
    );
    assert_eq!(
        decode_one(&[0xb4, 0x82, 0x80, 0x80, 0x00]),
        Ok(TracePacket::GlobalTimestamp2 { ts: 2 })
    );
    assert_eq!(
        decode_one(&[0xb4, 0x80, 0x80, 0x80, 0x80, 0x80, 0x07]),
        Ok(TracePacket::GlobalTimestamp2 { ts: 7 << 35 })
    );
}

#[test]
fn invalid_gts2_size() {
    assert_eq!(
        decode_one(&[0xb4, 0x00]),
        Err(MalformedPacket::InvalidGTS2Size { payload: vec![0] })
    );
}

#[test]
fn event_counter_wrap() {
    assert_eq!(
        decode_one(&[0x05, 0x21]),
        Ok(TracePacket::EventCounterWrap {
            cyc: true,
            fold: false,
            lsu: false,
            sleep: false,
            exc: false,
            cpi: true
        })
    );
}

#[test]
fn invalid_hardware_packet() {
    assert_eq!(
        decode_one(&[0x06, 0x01, 0x02]),
        Err(MalformedPacket::InvalidHardwarePacket { disc_id: 0, payload: vec![1, 2] })
    );
}

#[test]
fn invalid_hardware_disc() {
    assert_eq!(
        decode_one(&[0x1d]),
        Err(MalformedPacket::InvalidHardwareDisc { disc_id: 3, size: 1 })
    );
}

#[test]
fn exception_trace() {
    assert_eq!(
        decode_one(&[0x0e, 0x0f, 0x10]),
        Ok(TracePacket::ExceptionTrace {
            exception: VectActive::Exception(Exception::SysTick),
            action: ExceptionAction::Entered
        })
    );
    assert_eq!(
        decode_one(&[0x0e, 0x20, 0x20]),
        Ok(TracePacket::ExceptionTrace {
            exception: VectActive::Interrupt { irqn: 16 },
            action: ExceptionAction::Exited
        })
    );
    assert_eq!(
        decode_one(&[0x0e, 0x00, 0x30]),
        Ok(TracePacket::ExceptionTrace {
            exception: VectActive::ThreadMode,
            action: ExceptionAction::Returned
        })
    );
}

#[test]
fn invalid_exception_trace() {
    assert_eq!(
        decode_one(&[0x0e, 0x01, 0x10]),
        Err(MalformedPacket::InvalidExceptionTrace { exception: 1, function: 1 })
    );
    assert_eq!(
        decode_one(&[0x0e, 0x00, 0x31]),
        Err(MalformedPacket::InvalidExceptionTrace { exception: 256, function: 3 })
    );
    assert_eq!(
        decode_one(&[0x0e, 0x02, 0x00]),
        Err(MalformedPacket::InvalidExceptionTrace { exception: 2, function: 0 })
    );
}

#[test]
fn data_trace() {
    assert_eq!(
        decode_one(&[0x67, 0x78, 0x56, 0x34, 0x12]),
        Ok(TracePacket::DataTracePC { comparator: 2, pc: 0x1234_5678 })
    );
    assert_eq!(
        decode_one(&[0x4e, 0xcd, 0xab]),
        Ok(TracePacket::DataTraceAddress { comparator: 0, data: vec![0xcd, 0xab] })
    );
    assert_eq!(
        decode_one(&[0x9d, 0x42]),
        Ok(TracePacket::DataTraceValue {
            comparator: 1,
            access_type: MemoryAccessType::Write,
            value: vec![0x42]
        })
    );
    assert_eq!(
        decode_one(&[0x95, 0x42]),
        Ok(TracePacket::DataTraceValue {
            comparator: 1,
            access_type: MemoryAccessType::Read,
            value: vec![0x42]
        })
    );
    assert_eq!(
        decode_one(&[0x65, 0x01]),
        Err(MalformedPacket::InvalidHardwarePacket { disc_id: 12, payload: vec![1] })
    );
}

#[test]
fn header_classification_is_a_function_of_the_byte() {
    for b in 0..=255u8 {
        assert_eq!(decode_header(b), decode_header(b));
    }
    assert_eq!(decode_header(0x00), Ok(HeaderVariant::Stub(PacketStub::Sync(8))));
    assert_eq!(decode_header(0x94), Ok(HeaderVariant::Stub(PacketStub::GlobalTimestamp1)));
    assert_eq!(decode_header(0xb4), Ok(HeaderVariant::Stub(PacketStub::GlobalTimestamp2)));
    assert_eq!(
        decode_header(0x17),
        Ok(HeaderVariant::Stub(PacketStub::HardwareSource { disc_id: 2, expected_size: 4 }))
    );
    assert_eq!(decode_header(0x80), Err(MalformedPacket::InvalidHeader(0x80)));
}

#[test]
fn incomplete_packet_stays_pending() {
    let mut decoder = Decoder::new(DecoderOptions::default());
    decoder.push(&[0x17, 0x44]);
    assert_eq!(decoder.next(), Ok(None));
    assert_eq!(decoder.next(), Ok(None));
    decoder.push(&[0x33, 0x22, 0x11]);
    assert_eq!(decoder.next(), Ok(Some(TracePacket::PCSample { pc: Some(0x1122_3344) })));
    assert_eq!(decoder.next(), Ok(None));
}

#[test]
fn chunk_invariance() {
    let stream: Vec<u8> = vec![
        0x70, 0x09, 0xab, 0x17, 0x44, 0x33, 0x22, 0x11, 0x00, 0x00, 0x00, 0x00, 0x00, 0x00, 0x80,
        0xc0, 0x01, 0x30, 0x04, 0x94, 0x81, 0x00, 0xb4, 0x82, 0x80, 0x80, 0x00, 0x15, 0x00,
    ];
    let whole = decode_all(&stream);
    assert!(whole.len() > 8);
    for chunk in 1..=stream.len() {
        let mut decoder = Decoder::new(DecoderOptions::default());
        let mut out = Vec::new();
        for c in stream.chunks(chunk) {
            decoder.push(c);
            loop {
                match decoder.next() {
                    Ok(None) => break,
                    Ok(Some(p)) => out.push(Ok(p)),
                    Err(e) => out.push(Err(e)),
                }
            }
        }
        assert_eq!(out, whole, "chunks of {}", chunk);
    }
}

#[test]
fn local_timestamp1_has_27_bits() {
    assert_eq!(
        decode_one(&[0xc0, 0x80, 0x80, 0x80, 0x7f]),
        Ok(TracePacket::LocalTimestamp1 {
            ts: 0x3f << 21,
            data_relation: TimestampDataRelation::Sync
        })
    );
    assert_eq!(
        decode_one(&[0xc0, 0xff, 0xff, 0xff, 0x7f]),
        Ok(TracePacket::LocalTimestamp1 {
            ts: (1 << 27) - 1,
            data_relation: TimestampDataRelation::Sync
        })
    );
}
