use gpmf_parser::klv::{Klv, KlvError, Value, ValueType};
use gpmf_parser::round_up_4;

fn header(fourcc: &[u8; 4], typ: u8, sample_size: u8, repeat: u16) -> Vec<u8> {
    let mut v = Vec::new();
    v.extend_from_slice(fourcc);
    v.push(typ);
    v.push(sample_size);
    v.extend_from_slice(&repeat.to_be_bytes());
    v
}

fn record(fourcc: &[u8; 4], typ: u8, sample_size: u8, repeat: u16, payload: &[u8]) -> Vec<u8> {
    let mut v = header(fourcc, typ, sample_size, repeat);
    v.extend_from_slice(payload);
    let pad = (4 - payload.len() % 4) % 4;
    for _ in 0..pad {
        v.push(0);
    }
    v
}

#[test]
fn minimal_u32_leaf() {
    let bytes = record(b"DEMO", b'L', 4, 1, &7u32.to_be_bytes());
    assert_eq!(bytes.len(), 12);
    let klvs = Klv::from_reader(&bytes).unwrap();
    assert_eq!(klvs.len(), 1);
    assert_eq!(klvs[0].header().fourcc().as_bytes(), b"DEMO");
    assert!(matches!(klvs[0].value(), Value::U32(v) if v == &vec![7u32]));
}

#[test]
fn padded_ascii() {
    let bytes = record(b"NAME", b'c', 1, 5, b"hello");
    assert_eq!(bytes.len() % 4, 0);
    let klvs = Klv::from_reader(&bytes).unwrap();
    assert_eq!(klvs.len(), 1);
    assert!(matches!(klvs[0].value(), Value::Ascii(s) if s == "hello"));
}

#[test]
fn nested_container_two_children() {
    let mut payload = Vec::new();
    payload.extend_from_slice(&record(b"AAAA", b'L', 4, 1, &1u32.to_be_bytes()));
    payload.extend_from_slice(&record(b"BBBB", b'L', 4, 1, &2u32.to_be_bytes()));
    assert_eq!(payload.len(), 24);
    let bytes = record(b"DEVC", 0, 24, 1, &payload);
    let klvs = Klv::from_reader(&bytes).unwrap();
    assert_eq!(klvs.len(), 1);
    match klvs[0].value() {
        Value::Nested(children) => {
            assert_eq!(children.len(), 2);
            assert_eq!(children[0].header().fourcc().as_bytes(), b"AAAA");
            assert_eq!(children[1].header().fourcc().as_bytes(), b"BBBB");
            assert!(matches!(children[1].value(), Value::U32(v) if v == &vec![2u32]));
        },
        other => panic!("expected a nested value, got {:?}", other),
    }
}

#[test]
fn clean_terminator_ignores_garbage() {
    let mut bytes = record(b"DEMO", b'L', 4, 1, &7u32.to_be_bytes());
    let truncated = bytes.clone();
    bytes.extend_from_slice(&[0, 0, 0, 0]);
    bytes.extend_from_slice(&[0xFF, 0x13, 0x37, 0xAB, 0xCD]);
    let klvs = Klv::from_reader(&bytes).unwrap();
    assert_eq!(klvs.len(), 1);
    assert!(matches!(klvs[0].value(), Value::U32(v) if v == &vec![7u32]));
    // The record list equals the one from truncation at the sentinel.
    let klvs_t = Klv::from_reader(&truncated).unwrap();
    assert_eq!(format!("{:?}", klvs), format!("{:?}", klvs_t));
}

#[test]
fn unknown_type_code() {
    let bytes = header(b"DEMO", b'Z', 4, 1);
    let err = Klv::from_reader(&bytes).unwrap_err();
    assert!(matches!(err, KlvError::UnknownTypeCode(0x5A)));
}

#[test]
fn parse_is_deterministic() {
    let mut bytes = record(b"NAME", b'c', 1, 3, b"abc");
    bytes.extend_from_slice(&record(b"DEMO", b's', 2, 2, &[0xFF, 0xFE, 0x00, 0x01]));
    let a = Klv::from_reader(&bytes).unwrap();
    let b = Klv::from_reader(&bytes).unwrap();
    assert_eq!(format!("{:?}", a), format!("{:?}", b));
}

#[test]
fn consumed_length_is_header_plus_padded_payload() {
    // One record of each padding amount: 3, 2, 1, and 0 bytes of padding.
    let mut bytes = Vec::new();
    bytes.extend_from_slice(&record(b"PAD1", b'c', 1, 1, b"a"));
    bytes.extend_from_slice(&record(b"PAD2", b'c', 1, 2, b"ab"));
    bytes.extend_from_slice(&record(b"PAD3", b'c', 1, 3, b"abc"));
    bytes.extend_from_slice(&record(b"PAD0", b'c', 1, 4, b"abcd"));
    let expected: usize = (8 + 4) * 4;
    assert_eq!(bytes.len(), expected);
    let klvs = Klv::from_reader(&bytes).unwrap();
    assert_eq!(klvs.len(), 4);
    assert!(matches!(klvs[0].value(), Value::Ascii(s) if s == "a"));
    assert!(matches!(klvs[1].value(), Value::Ascii(s) if s == "ab"));
    assert!(matches!(klvs[2].value(), Value::Ascii(s) if s == "abc"));
    assert!(matches!(klvs[3].value(), Value::Ascii(s) if s == "abcd"));
}

#[test]
fn repeat_zero_yields_empty_value() {
    let bytes = record(b"EMPT", b'L', 4, 0, &[]);
    assert_eq!(bytes.len(), 8);
    let klvs = Klv::from_reader(&bytes).unwrap();
    assert!(matches!(klvs[0].value(), Value::U32(v) if v.is_empty()));
}

#[test]
fn sample_size_zero_nested_and_complex() {
    let mut bytes = record(b"NEST", 0, 0, 3, &[]);
    bytes.extend_from_slice(&record(b"BLOB", b'?', 0, 7, &[]));
    let klvs = Klv::from_reader(&bytes).unwrap();
    assert_eq!(klvs.len(), 2);
    assert!(matches!(klvs[0].value(), Value::Nested(ks) if ks.is_empty()));
    assert!(matches!(klvs[1].value(), Value::Complex(c) if c.raw_data().is_empty()));
}

#[test]
fn numeric_kinds_decode_big_endian() {
    let mut bytes = Vec::new();
    bytes.extend_from_slice(&record(b"SGN1", b'b', 1, 2, &[0xFF, 0x7F]));
    bytes.extend_from_slice(&record(b"UNS1", b'B', 1, 3, &[1, 2, 255]));
    bytes.extend_from_slice(&record(b"SGN2", b's', 2, 1, &[0xFF, 0xFE]));
    bytes.extend_from_slice(&record(b"UNS2", b'S', 2, 1, &[0x12, 0x34]));
    bytes.extend_from_slice(&record(b"SGN4", b'l', 4, 1, &(-2i32).to_be_bytes()));
    bytes.extend_from_slice(&record(b"UNS8", b'J', 8, 1, &0x0102030405060708u64.to_be_bytes()));
    let klvs = Klv::from_reader(&bytes).unwrap();
    assert_eq!(klvs.len(), 6);
    assert!(matches!(klvs[0].value(), Value::S8(v) if v == &vec![-1i8, 127]));
    assert!(matches!(klvs[1].value(), Value::U8(v) if v == &vec![1u8, 2, 255]));
    assert!(matches!(klvs[2].value(), Value::S16(v) if v == &vec![-2i16]));
    assert!(matches!(klvs[3].value(), Value::U16(v) if v == &vec![0x1234u16]));
    assert!(matches!(klvs[4].value(), Value::S32(v) if v == &vec![-2i32]));
    assert!(matches!(klvs[5].value(), Value::U64(v) if v == &vec![0x0102030405060708u64]));
}

#[test]
fn f32_payload_keeps_bit_patterns() {
    let x: f32 = 1.5;
    let bytes = record(b"FLTS", b'f', 4, 1, &x.to_bits().to_be_bytes());
    let klvs = Klv::from_reader(&bytes).unwrap();
    match klvs[0].value() {
        Value::F32(bits) => {
            assert_eq!(bits.len(), 1);
            assert_eq!(f32::from_bits(bits[0]), 1.5);
        },
        other => panic!("expected a float value, got {:?}", other),
    }
}

#[test]
fn fourcc_payload_allows_any_bytes() {
    let mut payload = Vec::new();
    payload.extend_from_slice(b"GPS9");
    payload.extend_from_slice(&[0, 0, 0, 0]);
    let bytes = record(b"STNM", b'F', 4, 2, &payload);
    let klvs = Klv::from_reader(&bytes).unwrap();
    match klvs[0].value() {
        Value::Fourcc(v) => {
            assert_eq!(v.len(), 2);
            assert_eq!(v[0].as_bytes(), b"GPS9");
            assert_eq!(v[1].as_bytes(), &[0, 0, 0, 0]);
        },
        other => panic!("expected a FourCC vector, got {:?}", other),
    }
}

#[test]
fn multiple_samples_with_axes() {
    // sample_size 4 of type 's' gives 2 axes; 3 samples give 6 elements.
    let payload: Vec<u8> = vec![0, 1, 0, 2, 0, 3, 0, 4, 0, 5, 0, 6];
    let bytes = record(b"AXES", b's', 4, 3, &payload);
    let klvs = Klv::from_reader(&bytes).unwrap();
    assert!(matches!(klvs[0].value(), Value::S16(v) if v == &vec![1i16, 2, 3, 4, 5, 6]));
}

#[test]
fn truncated_header_is_hard_failure() {
    let bytes: Vec<u8> = vec![b'A', b'B', b'C', b'D', b'L'];
    let err = Klv::from_reader(&bytes).unwrap_err();
    assert!(matches!(err, KlvError::UnexpectedEndOfStream));
}

#[test]
fn truncated_payload_is_hard_failure() {
    let mut bytes = header(b"DEMO", b'L', 4, 2);
    bytes.extend_from_slice(&[0, 0, 0, 7]);
    let err = Klv::from_reader(&bytes).unwrap_err();
    assert!(matches!(err, KlvError::UnexpectedEndOfStream));
}

#[test]
fn short_stream_before_header_is_clean_end() {
    let mut bytes = record(b"DEMO", b'L', 4, 1, &7u32.to_be_bytes());
    bytes.extend_from_slice(&[0x41, 0x42]);
    let klvs = Klv::from_reader(&bytes).unwrap();
    assert_eq!(klvs.len(), 1);
}

#[test]
fn empty_stream_is_empty_list() {
    let bytes: Vec<u8> = Vec::new();
    let klvs = Klv::from_reader(&bytes).unwrap();
    assert!(klvs.is_empty());
}

#[test]
fn sentinel_inside_nested_is_failure() {
    let payload = vec![0u8; 12];
    let bytes = record(b"DEVC", 0, 12, 1, &payload);
    let err = Klv::from_reader(&bytes).unwrap_err();
    assert!(matches!(err, KlvError::EndOfStream));
}

#[test]
fn nested_overshoot_is_failure() {
    // The declared region is 12 bytes but the one child spans 16.
    let child = record(b"AAAA", b'L', 4, 2, &[0, 0, 0, 1, 0, 0, 0, 2]);
    assert_eq!(child.len(), 16);
    let mut bytes = header(b"DEVC", 0, 12, 1);
    bytes.extend_from_slice(&child);
    let err = Klv::from_reader(&bytes).unwrap_err();
    assert!(matches!(err, KlvError::UnexpectedEndOfStream));
}

#[test]
fn depth_cap_exceeded() {
    // 33 nested containers, each wrapping the next.
    let mut inner: Vec<u8> = record(b"LEAF", b'L', 4, 1, &7u32.to_be_bytes());
    for _ in 0..33 {
        inner = record(b"NEST", 0, 1, inner.len() as u16, &inner);
    }
    let err = Klv::from_reader(&inner).unwrap_err();
    assert!(matches!(err, KlvError::DepthExceeded));
}

#[test]
fn depth_within_cap_parses() {
    let mut inner: Vec<u8> = record(b"LEAF", b'L', 4, 1, &7u32.to_be_bytes());
    for _ in 0..31 {
        inner = record(b"NEST", 0, 1, inner.len() as u16, &inner);
    }
    let klvs = Klv::from_reader(&inner).unwrap();
    assert_eq!(klvs.len(), 1);
}

#[test]
fn round_up_4_values() {
    assert_eq!(round_up_4(0), 0);
    assert_eq!(round_up_4(1), 4);
    assert_eq!(round_up_4(2), 4);
    assert_eq!(round_up_4(3), 4);
    assert_eq!(round_up_4(4), 4);
    assert_eq!(round_up_4(5), 8);
}

#[test]
fn element_size_table() {
    assert_eq!(ValueType::S8.element_size(), 1);
    assert_eq!(ValueType::U64.element_size(), 8);
    assert_eq!(ValueType::DateTime.element_size(), 16);
    assert_eq!(ValueType::Complex.element_size(), 0);
    assert_eq!(ValueType::Nested.element_size(), 0);
}

#[test]
fn header_accessors() {
    let bytes = record(b"DEMO", b's', 4, 3, &[0, 1, 0, 2, 0, 3, 0, 4, 0, 5, 0, 6]);
    let klvs = Klv::from_reader(&bytes).unwrap();
    let h = klvs[0].header();
    assert_eq!(h.fourcc().as_str().unwrap(), "DEMO");
    let tsr = h.tsr();
    assert_eq!(tsr.typ(), ValueType::S16);
    assert_eq!(tsr.sample_size(), 4);
    assert_eq!(tsr.repeat(), 3);
    assert_eq!(tsr.axis_count(), 2);
}

#[test]
fn fourcc_as_str_rejects_non_ascii() {
    let bytes = record(&[b'A', 0xC3, b'C', b'D'], b'L', 4, 1, &7u32.to_be_bytes());
    let klvs = Klv::from_reader(&bytes).unwrap();
    let err = klvs[0].header().fourcc().as_str().unwrap_err();
    assert!(matches!(err, KlvError::InvalidUtf8InFourCC));
}

#[test]
fn latin1_ascii_keeps_high_bytes() {
    let bytes = record(b"TEXT", b'c', 1, 2, &[0xE9, 0x41]);
    let klvs = Klv::from_reader(&bytes).unwrap();
    match klvs[0].value() {
        Value::Ascii(s) => {
            let chars: Vec<char> = s.chars().collect();
            assert_eq!(chars, vec!['\u{E9}', 'A']);
        },
        other => panic!("expected text, got {:?}", other),
    }
}

#[test]
fn into_value_moves_payload() {
    let bytes = record(b"DEMO", b'L', 4, 1, &7u32.to_be_bytes());
    let mut klvs = Klv::from_reader(&bytes).unwrap();
    let v = klvs.remove(0).into_value();
    assert!(matches!(v, Value::U32(x) if x == vec![7u32]));
}
