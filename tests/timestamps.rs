use itm_decode::{
    Decoder, DecoderOptions, MalformedPacket, Timestamp, TimestampDataRelation, TracePacket,
};

#[test]
fn batch_closed_by_local_timestamp_with_base() {
    let mut decoder = Decoder::new(DecoderOptions::default());
    decoder.push(&[0x94, 0x81, 0x00, 0xb4, 0x82, 0x80, 0x80, 0x00, 0x09, 0xab, 0x04, 0x30]);
    let batch = decoder.pull_with_timestamp().unwrap();
    assert_eq!(
        batch.timestamp,
        Timestamp {
            base: Some((2 << 26) | 1),
            delta: Some(3),
            data_relation: Some(TimestampDataRelation::Sync),
            diverged: false,
        }
    );
    assert_eq!(batch.packets, vec![TracePacket::Instrumentation { port: 1, payload: vec![0xab] }]);
    assert_eq!(batch.malformed_packets, vec![MalformedPacket::InvalidHeader(0x04)]);
    assert_eq!(batch.packets_consumed, 5);
    assert!(decoder.pull_with_timestamp().is_none());
}

#[test]
fn delta_accumulates_within_an_epoch() {
    let mut decoder = Decoder::new(DecoderOptions::default());
    decoder.push(&[0x30, 0x70, 0x20, 0xc0, 0x0a]);
    let first = decoder.pull_with_timestamp().unwrap();
    assert_eq!(first.timestamp.delta, Some(3));
    assert!(first.packets.is_empty());
    let second = decoder.pull_with_timestamp().unwrap();
    assert_eq!(second.timestamp.delta, Some(5));
    assert!(second.timestamp.diverged);
    assert_eq!(second.packets, vec![TracePacket::Overflow]);
    let third = decoder.pull_with_timestamp().unwrap();
    assert_eq!(third.timestamp.delta, Some(15));
    assert!(third.timestamp.delta >= second.timestamp.delta);
    assert_eq!(third.timestamp.base, None);
}

#[test]
fn new_base_resets_delta() {
    let mut decoder = Decoder::new(DecoderOptions::default());
    decoder.push(&[0x30, 0x94, 0x85, 0x00, 0xb4, 0x81, 0x80, 0x80, 0x00, 0x20]);
    assert_eq!(decoder.pull_with_timestamp().unwrap().timestamp.delta, Some(3));
    let batch = decoder.pull_with_timestamp().unwrap();
    assert_eq!(batch.timestamp.base, Some((1 << 26) | 5));
    assert_eq!(batch.timestamp.delta, Some(2));
}

#[test]
fn clock_change_drops_pending_global_timestamp() {
    let mut decoder = Decoder::new(DecoderOptions::default());
    decoder.push(&[0xb4, 0x81, 0x80, 0x80, 0x00, 0x94, 0x85, 0x20, 0x30]);
    let batch = decoder.pull_with_timestamp().unwrap();
    assert_eq!(batch.timestamp.base, None);
}

#[test]
fn only_gts_hands_out_each_packet() {
    let mut decoder = Decoder::new(DecoderOptions { only_gts: true, keep_reading: true });
    decoder.push(&[0x30, 0x09, 0xab]);
    let first = decoder.pull_with_timestamp().unwrap();
    assert_eq!(first.packets, vec![TracePacket::LocalTimestamp2 { ts: 3 }]);
    assert_eq!(first.packets_consumed, 1);
    assert_eq!(first.timestamp.delta, None);
    let second = decoder.pull_with_timestamp().unwrap();
    assert_eq!(second.packets, vec![TracePacket::Instrumentation { port: 1, payload: vec![0xab] }]);
    assert!(decoder.pull_with_timestamp().is_none());
}

#[test]
fn default_options() {
    let o = DecoderOptions::default();
    assert!(!o.only_gts);
    assert!(o.keep_reading);
    assert_eq!(
        Timestamp::default(),
        Timestamp { base: None, delta: None, data_relation: None, diverged: false }
    );
}
