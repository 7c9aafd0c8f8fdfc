use itm_decode::{Decoder, DecoderOptions};

#[test]
fn pull_bytes() {
    let mut decoder = Decoder::new(DecoderOptions::default());
    let payload = vec![0b1000_0000, 0b1010_0000, 0b1000_0100, 0b0110_0000];
    decoder.push(&payload);
    assert_eq!(decoder.pull_bytes(3).unwrap().len(), 3);
}

#[test]
fn pull_payload() {
    let mut decoder = Decoder::new(DecoderOptions::default());
    let payload = vec![0b1000_0000, 0b1010_0000, 0b1000_0100, 0b0110_0000];
    decoder.push(&payload);
    assert_eq!(decoder.pull_payload(), Some(payload));
}

#[test]
fn extract_timestamp() {
    let ts: Vec<u8> = [0b1000_0000, 0b1000_0000, 0b1000_0000, 0b0000_0000].to_vec();

    assert_eq!(itm_decode::extract_timestamp(ts, 25), 0);

    let ts: Vec<u8> = [0b1000_0001, 0b1000_0111, 0b1001_1111, 0b0111_1111].to_vec();

    assert_eq!(
        itm_decode::extract_timestamp(ts, 27),
        0b1111111_0011111_0000111_0000001,
    );

    let ts: Vec<u8> = [0b1000_0001, 0b1000_0111, 0b1001_1111, 0b1111_1111].to_vec();

    assert_eq!(
        itm_decode::extract_timestamp(ts, 25),
        0b11111_0011111_0000111_0000001,
    );
}

#[test]
fn pull_bytes_short_leaves_bits() {
    let mut decoder = Decoder::new(DecoderOptions::default());
    decoder.push(&[0x01, 0x02]);
    assert_eq!(decoder.pull_bytes(3), None);
    assert_eq!(decoder.pull_bytes(2), Some(vec![0x01, 0x02]));
}

#[test]
fn pull_payload_incomplete() {
    let mut decoder = Decoder::new(DecoderOptions::default());
    decoder.push(&[0x80, 0x81]);
    assert_eq!(decoder.pull_payload(), None);
    decoder.push(&[0x05, 0x07]);
    assert_eq!(decoder.pull_payload(), Some(vec![0x80, 0x81, 0x05]));
    assert_eq!(decoder.pull_payload(), Some(vec![0x07]));
}

#[test]
fn timestamp_round_trip() {
    for &(v, max_bits) in &[(0x0abc_defu64, 27u64), (0x7ff_ffff, 26), (0x3ff_ffff, 25), (0x3f_ffff, 21), (0x3f_ffff_ffff, 37), (1, 27)] {
        let n = (max_bits / 7 + 1) as usize;
        let mut bytes = Vec::new();
        for i in 0..n {
            let seven = ((v >> (7 * i)) & 0x7f) as u8;
            bytes.push(if i + 1 < n { seven | 0x80 } else { seven });
        }
        assert_eq!(itm_decode::extract_timestamp(bytes, max_bits), v);
    }
}

#[test]
fn timestamp_flags_do_not_leak() {
    // Bits 5 and 6 of the last byte are flags for a 26-bit timestamp.
    assert_eq!(itm_decode::extract_timestamp(vec![0x81, 0x60], 25), 1);
    assert_eq!(itm_decode::extract_timestamp(vec![0x7f], 27), 0x7f);
    assert_eq!(itm_decode::extract_timestamp(vec![0x7f], 21), 1);
}
