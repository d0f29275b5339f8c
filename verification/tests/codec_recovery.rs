use trading_signal::codec::{decode, encode, is_plausible, recover, FORECAST_FLOOR};
use trading_signal::signal::{DecodeError, SignalResult, Uint256};

fn sample_result() -> SignalResult {
    SignalResult {
        decision: 1,
        confidence: Uint256 { hi: 0, lo: 97 },
        forecast_value: Uint256 { hi: 0, lo: 4182750000000000000 },
    }
}

#[test]
fn encode_layout() {
    let r = sample_result();
    let bytes = encode(&r);
    assert_eq!(bytes.len(), 96);
    // Decision: one byte, right-aligned in a zero 32-byte field.
    for i in 0..31 {
        assert_eq!(bytes[i], 0);
    }
    assert_eq!(bytes[31], 1);
    // Confidence 97 sits in the last byte of the second field.
    for i in 32..63 {
        assert_eq!(bytes[i], 0);
    }
    assert_eq!(bytes[63], 97);
    // The third field ends with the big-endian forecast value.
    assert_eq!(&bytes[88..96], &4182750000000000000u64.to_be_bytes());
    for i in 64..88 {
        assert_eq!(bytes[i], 0);
    }
}

#[test]
fn decode_encode_roundtrip() {
    let r = sample_result();
    assert_eq!(decode(&encode(&r)), Ok(r));
    let sell = SignalResult {
        decision: 0,
        confidence: Uint256 { hi: 0, lo: 0 },
        forecast_value: Uint256 { hi: 0, lo: 0 },
    };
    assert_eq!(decode(&encode(&sell)), Ok(sell));
}

#[test]
fn decode_preserves_wide_values() {
    // Values beyond 64 bits survive a round trip untruncated.
    let wide = SignalResult {
        decision: 1,
        confidence: Uint256 { hi: 0xdead, lo: u128::MAX },
        forecast_value: Uint256 { hi: u128::MAX, lo: 7 },
    };
    assert_eq!(decode(&encode(&wide)), Ok(wide));
}

#[test]
fn decode_wrong_length() {
    assert_eq!(decode(&[0u8; 95]), Err(DecodeError::WrongLength));
    assert_eq!(decode(&[0u8; 97]), Err(DecodeError::WrongLength));
    assert_eq!(decode(&[]), Err(DecodeError::WrongLength));
}

#[test]
fn decode_decision_out_of_range() {
    // Decision byte 2 is rejected.
    let mut bytes = vec![0u8; 96];
    bytes[31] = 2;
    assert_eq!(decode(&bytes), Err(DecodeError::DecisionOutOfRange));
    // A nonzero byte higher up in the decision field is also rejected.
    let mut framed = vec![0u8; 96];
    framed[0] = 1;
    framed[31] = 1;
    assert_eq!(decode(&framed), Err(DecodeError::DecisionOutOfRange));
}

#[test]
fn recover_bare_encoding() {
    let r = sample_result();
    assert_eq!(recover(&encode(&r)), Ok(r));
}

#[test]
fn recover_envelope_at_128() {
    // The shape the transport actually returns: a 256-byte blob with
    // the canonical region at byte offset 128.
    let r = sample_result();
    let mut blob = vec![0u8; 128];
    blob.extend_from_slice(&encode(&r));
    blob.extend_from_slice(&[0u8; 32]);
    assert_eq!(blob.len(), 256);
    assert_eq!(recover(&blob), Ok(r));
}

#[test]
fn recover_envelope_offset_has_priority() {
    // With a 224-byte blob, the envelope offset is tried before the
    // scan, so the tuple at 128 wins over a plausible tuple at 0.
    let early = sample_result();
    let wrapped = SignalResult {
        decision: 0,
        confidence: Uint256 { hi: 0, lo: 55 },
        forecast_value: Uint256 { hi: 0, lo: 2000000000000000000 },
    };
    let mut blob = encode(&early);
    blob.extend_from_slice(&[0u8; 32]);
    blob.extend_from_slice(&encode(&wrapped));
    assert_eq!(blob.len(), 224);
    assert_eq!(recover(&blob), Ok(wrapped));
}

#[test]
fn recover_scans_in_increasing_order() {
    // Below the envelope length the aligned windows are tried from
    // offset 0 upward; the first plausible one is returned.
    let r = sample_result();
    let mut blob = vec![0u8; 96];
    blob.extend_from_slice(&encode(&r));
    assert_eq!(blob.len(), 192);
    assert_eq!(recover(&blob), Ok(r));
}

#[test]
fn recover_too_short() {
    assert_eq!(recover(&[0u8; 95]), Err(DecodeError::TooShort));
    assert_eq!(recover(&[]), Err(DecodeError::TooShort));
    let r = sample_result();
    let full = encode(&r);
    assert_eq!(recover(&full[..64]), Err(DecodeError::TooShort));
}

#[test]
fn recover_no_valid_tuple() {
    // All zeros decodes cleanly everywhere, but a zero forecast fails
    // the plausibility floor, so nothing is recovered.
    assert_eq!(recover(&vec![0u8; 96]), Err(DecodeError::NoValidTuple));
    assert_eq!(recover(&vec![0u8; 223]), Err(DecodeError::NoValidTuple));
    // A decision byte out of range at every window fails too.
    let mut bytes = vec![0u8; 160];
    for off in [31usize, 63, 95, 127, 159] {
        bytes[off] = 9;
    }
    assert_eq!(recover(&bytes), Err(DecodeError::NoValidTuple));
}

#[test]
fn plausibility_boundaries() {
    let mut r = sample_result();
    assert!(is_plausible(&r));
    // Confidence above 100 percent is never genuine.
    r.confidence = Uint256 { hi: 0, lo: 101 };
    assert!(!is_plausible(&r));
    r.confidence = Uint256 { hi: 0, lo: 100 };
    assert!(is_plausible(&r));
    // The forecast must exceed the floor strictly.
    r.forecast_value = Uint256 { hi: 0, lo: FORECAST_FLOOR as u128 };
    assert!(!is_plausible(&r));
    r.forecast_value = Uint256 { hi: 0, lo: FORECAST_FLOOR as u128 + 1 };
    assert!(is_plausible(&r));
    // A decision beyond 1 is never genuine.
    r.decision = 2;
    assert!(!is_plausible(&r));
}

#[test]
fn uint256_comparisons() {
    let small = Uint256 { hi: 0, lo: 100 };
    assert!(small.le_u64(100));
    assert!(!small.gt_u64(100));
    assert!(small.gt_u64(99));
    let big = Uint256 { hi: 1, lo: 0 };
    assert!(!big.le_u64(u64::MAX));
    assert!(big.gt_u64(u64::MAX));
    assert_eq!(big.low_u64(), 0);
    let mixed = Uint256 { hi: 3, lo: (7u128 << 64) | 42 };
    assert_eq!(mixed.low_u64(), 42);
    assert_eq!(Uint256::from_u64(9000), Uint256 { hi: 0, lo: 9000 });
}
