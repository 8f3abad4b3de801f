use nimbus_rendezvous::bytes_codec::{BytesCodec, CodecError};

#[test]
fn test_codec1() {
    let mut codec = BytesCodec::new();
    let mut buf: Vec<u8> = Vec::new();
    let mut bytes: Vec<u8> = Vec::new();
    // bytes len: 63 resize as 1
    bytes.resize(0x3F, 1);
    assert!(codec.encode(&bytes, &mut buf).is_ok());
    let buf_saved = buf.clone();
    assert_eq!(buf.len(), 0x3F + 1);
    if let Ok(Some(res)) = codec.decode(&mut buf) {
        assert_eq!(res.len(), 0x3F);
        assert_eq!(res[0], 1);
    } else {
        panic!();
    }
    let mut codec2 = BytesCodec::new();
    let mut buf2: Vec<u8> = Vec::new();
    if let Ok(None) = codec2.decode(&mut buf2) {
    } else {
        panic!();
    }
    buf2.extend(&buf_saved[0..1]);
    if let Ok(None) = codec2.decode(&mut buf2) {
    } else {
        panic!();
    }
    buf2.extend(&buf_saved[1..]);
    if let Ok(Some(res)) = codec2.decode(&mut buf2) {
        assert_eq!(res.len(), 0x3F);
        assert_eq!(res[0], 1);
    } else {
        panic!();
    }
}

#[test]
fn test_codec2() {
    let mut codec = BytesCodec::new();
    let mut buf: Vec<u8> = Vec::new();
    let mut bytes: Vec<u8> = Vec::new();
    assert!(codec.encode(&Vec::new(), &mut buf).is_ok());
    assert_eq!(buf.len(), 1);
    bytes.resize(0x3F + 1, 2);
    assert!(codec.encode(&bytes, &mut buf).is_ok());
    assert_eq!(buf.len(), 0x3F + 2 + 2);
    if let Ok(Some(res)) = codec.decode(&mut buf) {
        assert_eq!(res.len(), 0);
    } else {
        panic!();
    }
    if let Ok(Some(res)) = codec.decode(&mut buf) {
        assert_eq!(res.len(), 0x3F + 1);
        assert_eq!(res[0], 2);
    } else {
        panic!();
    }
}

#[test]
fn test_codec3() {
    let mut codec = BytesCodec::new();
    let mut buf: Vec<u8> = Vec::new();
    let mut bytes: Vec<u8> = Vec::new();
    bytes.resize(0x3F - 1, 3);
    assert!(codec.encode(&bytes, &mut buf).is_ok());
    assert_eq!(buf.len(), 0x3F + 1 - 1);
    if let Ok(Some(res)) = codec.decode(&mut buf) {
        assert_eq!(res.len(), 0x3F - 1);
        assert_eq!(res[0], 3);
    } else {
        panic!();
    }
}

#[test]
fn test_codec4() {
    let mut codec = BytesCodec::new();
    let mut buf: Vec<u8> = Vec::new();
    let mut bytes: Vec<u8> = Vec::new();
    bytes.resize(0x3FFF, 4);
    assert!(codec.encode(&bytes, &mut buf).is_ok());
    assert_eq!(buf.len(), 0x3FFF + 2);
    if let Ok(Some(res)) = codec.decode(&mut buf) {
        assert_eq!(res.len(), 0x3FFF);
        assert_eq!(res[0], 4);
    } else {
        panic!();
    }
}

#[test]
fn test_codec5() {
    let mut codec = BytesCodec::new();
    let mut buf: Vec<u8> = Vec::new();
    let mut bytes: Vec<u8> = Vec::new();
    bytes.resize(0x3FFFFF, 5);
    assert!(codec.encode(&bytes, &mut buf).is_ok());
    assert_eq!(buf.len(), 0x3FFFFF + 3);
    if let Ok(Some(res)) = codec.decode(&mut buf) {
        assert_eq!(res.len(), 0x3FFFFF);
        assert_eq!(res[0], 5);
    } else {
        panic!();
    }
}

#[test]
fn test_codec6() {
    let mut codec = BytesCodec::new();
    let mut buf: Vec<u8> = Vec::new();
    let mut bytes: Vec<u8> = Vec::new();
    bytes.resize(0x3FFFFF + 1, 6);
    assert!(codec.encode(&bytes, &mut buf).is_ok());
    let buf_saved = buf.clone();
    assert_eq!(buf.len(), 0x3FFFFF + 4 + 1);
    if let Ok(Some(res)) = codec.decode(&mut buf) {
        assert_eq!(res.len(), 0x3FFFFF + 1);
        assert_eq!(res[0], 6);
    } else {
        panic!();
    }
    let mut codec2 = BytesCodec::new();
    let mut buf2: Vec<u8> = Vec::new();
    buf2.extend(&buf_saved[0..1]);
    if let Ok(None) = codec2.decode(&mut buf2) {
    } else {
        panic!();
    }
    buf2.extend(&buf_saved[1..6]);
    if let Ok(None) = codec2.decode(&mut buf2) {
    } else {
        panic!();
    }
    buf2.extend(&buf_saved[6..]);
    if let Ok(Some(res)) = codec2.decode(&mut buf2) {
        assert_eq!(res.len(), 0x3FFFFF + 1);
        assert_eq!(res[0], 6);
    } else {
        panic!();
    }
}

/// Round trips across every header-width boundary the encoder can pick.
#[test]
fn round_trip_boundaries() {
    for &n in &[
        0usize,
        1,
        0x3F,
        0x3F + 1,
        0x3FFF,
        0x3FFF + 1,
        0x3FFFFF,
        0x3FFFFF + 1,
    ] {
        let payload: Vec<u8> = (0..n).map(|i| (i % 251) as u8).collect();
        let mut codec = BytesCodec::new();
        let mut buf: Vec<u8> = Vec::new();
        assert!(codec.encode(&payload, &mut buf).is_ok());
        let expected_header = match n {
            x if x <= 0x3F => 1,
            x if x <= 0x3FFF => 2,
            x if x <= 0x3FFFFF => 3,
            _ => 4,
        };
        assert_eq!(buf.len(), n + expected_header);
        match codec.decode(&mut buf) {
            Ok(Some(res)) => {
                assert_eq!(res, payload);
                assert!(buf.is_empty());
            }
            other => panic!("expected a frame, got {:?}", other.map(|o| o.map(|v| v.len()))),
        }
    }
}

/// Feeding an encoded frame one byte at a time never yields a premature
/// frame; the final byte yields exactly the original payload.
#[test]
fn partial_delivery_one_byte_at_a_time() {
    let payload: Vec<u8> = (0..300).map(|i| (i % 256) as u8).collect();
    let mut encoder = BytesCodec::new();
    let mut encoded: Vec<u8> = Vec::new();
    encoder.encode(&payload, &mut encoded).unwrap();

    let mut decoder = BytesCodec::new();
    let mut buf: Vec<u8> = Vec::new();
    for (i, &b) in encoded.iter().enumerate() {
        buf.push(b);
        match decoder.decode(&mut buf) {
            Ok(None) => assert!(i + 1 < encoded.len(), "no frame after the last byte"),
            Ok(Some(res)) => {
                assert_eq!(i + 1, encoded.len(), "premature frame at byte {}", i);
                assert_eq!(res, payload);
            }
            Err(e) => panic!("unexpected error: {:?}", e),
        }
    }
}

/// Encoding a payload longer than the widest header can announce fails.
#[test]
fn encode_overflow() {
    let payload: Vec<u8> = vec![0; 0x3FFF_FFFF + 1];
    let mut codec = BytesCodec::new();
    let mut buf: Vec<u8> = Vec::new();
    assert_eq!(codec.encode(&payload, &mut buf), Err(CodecError::Overflow));
    assert!(buf.is_empty());
}

/// A declared length above the configured maximum fails without consuming
/// or corrupting the buffered bytes.
#[test]
fn decode_too_big_packet() {
    let mut encoder = BytesCodec::new();
    let mut encoded: Vec<u8> = Vec::new();
    let payload: Vec<u8> = vec![7; 100];
    encoder.encode(&payload, &mut encoded).unwrap();

    let mut decoder = BytesCodec::new();
    decoder.set_max_packet_length(99);
    let mut buf = encoded.clone();
    assert_eq!(decoder.decode(&mut buf), Err(CodecError::TooBigPacket));
    assert_eq!(buf, encoded, "failed decode must not consume buffered bytes");

    // Raising the limit afterwards decodes the same buffered bytes.
    decoder.set_max_packet_length(100);
    match decoder.decode(&mut buf) {
        Ok(Some(res)) => assert_eq!(res, payload),
        other => panic!("expected a frame, got {:?}", other.map(|o| o.map(|v| v.len()))),
    }
}

/// Raw mode hands the whole buffer through unframed and is sticky.
#[test]
fn raw_mode_passthrough() {
    let mut codec = BytesCodec::new();
    codec.set_raw();
    let mut buf: Vec<u8> = Vec::new();
    codec.encode(&vec![1, 2, 3], &mut buf).unwrap();
    assert_eq!(buf, vec![1, 2, 3]);
    match codec.decode(&mut buf) {
        Ok(Some(res)) => assert_eq!(res, vec![1, 2, 3]),
        other => panic!("expected raw payload, got {:?}", other.map(|o| o.map(|v| v.len()))),
    }
    assert!(buf.is_empty());
    assert!(matches!(codec.decode(&mut buf), Ok(None)));
}
