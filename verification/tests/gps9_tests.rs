use gpmf_parser::datetime::DateTime;
use gpmf_parser::gps9::{GpmfSample, Gps9};
use gpmf_parser::klv::{Klv, KlvError, Value};
use gpmf_parser::track::{GpmfSampleInfo, GpmfTrack, Mp4SampleInfo};

fn record(fourcc: &[u8; 4], typ: u8, sample_size: u8, repeat: u16, payload: &[u8]) -> Vec<u8> {
    let mut v = Vec::new();
    v.extend_from_slice(fourcc);
    v.push(typ);
    v.push(sample_size);
    v.extend_from_slice(&repeat.to_be_bytes());
    v.extend_from_slice(payload);
    let pad = (4 - payload.len() % 4) % 4;
    for _ in 0..pad {
        v.push(0);
    }
    v
}

fn nested(fourcc: &[u8; 4], children: &[Vec<u8>]) -> Vec<u8> {
    let mut payload = Vec::new();
    for c in children {
        payload.extend_from_slice(c);
    }
    assert!(payload.len() <= u8::MAX as usize);
    record(fourcc, 0, payload.len() as u8, 1, &payload)
}

fn gps9_payload(
    lat: i32,
    lon: i32,
    alt: i32,
    sp2d: i32,
    sp3d: i32,
    days: i32,
    secs: i32,
    dop: u16,
    fix: u16,
) -> Vec<u8> {
    let mut v = Vec::new();
    for x in [lat, lon, alt, sp2d, sp3d, days, secs] {
        v.extend_from_slice(&x.to_be_bytes());
    }
    v.extend_from_slice(&dop.to_be_bytes());
    v.extend_from_slice(&fix.to_be_bytes());
    v
}

fn scal_payload(divisors: &[i32]) -> Vec<u8> {
    let mut v = Vec::new();
    for d in divisors {
        v.extend_from_slice(&d.to_be_bytes());
    }
    v
}

fn sample_devc_bytes() -> Vec<u8> {
    let type_rec = record(b"TYPE", b'c', 1, 9, b"lllllllSS");
    let scal_rec = record(
        b"SCAL",
        b'l',
        4,
        9,
        &scal_payload(&[10000000, 10000000, 1000, 1000, 1000, 1, 1000, 100, 1]),
    );
    let raw = gps9_payload(334055000, -1182943000, 54321, 3500, 3700, 8400, 43200000, 150, 3);
    let gps9_rec = record(b"GPS9", b'?', 32, 1, &raw);
    let strm = nested(b"STRM", &[type_rec, scal_rec, gps9_rec]);
    nested(b"DEVC", &[strm])
}

fn parse_single_devc(bytes: &Vec<u8>) -> Klv {
    let mut klvs = Klv::from_reader(bytes).unwrap();
    assert_eq!(klvs.len(), 1);
    klvs.remove(0)
}

#[test]
fn gps9_projection_raw_fields() {
    let bytes = sample_devc_bytes();
    let devc = parse_single_devc(&bytes);
    let sample = GpmfSample::new(devc).unwrap();
    let g: &Gps9 = sample.gps9();
    assert_eq!(g.latitude_raw, 334055000);
    assert_eq!(g.longitude_raw, -1182943000);
    assert_eq!(g.altitude_raw, 54321);
    assert_eq!(g.speed_2d_raw, 3500);
    assert_eq!(g.speed_3d_raw, 3700);
    assert_eq!(g.days_since_2000_raw, 8400);
    assert_eq!(g.seconds_since_midnight_raw, 43200000);
    assert_eq!(g.dop_raw, 150);
    assert_eq!(g.fix_raw, 3);
    assert_eq!(g.scale, vec![10000000, 10000000, 1000, 1000, 1000, 1, 1000, 100, 1]);
    assert_eq!(sample.klvs().len(), 1);
}

#[test]
fn gps9_projection_scaled() {
    let bytes = sample_devc_bytes();
    let devc = parse_single_devc(&bytes);
    let sample = GpmfSample::new(devc).unwrap();
    let g = sample.gps9();
    let latitude = g.latitude_raw as f32 / g.scale[0] as f32;
    let longitude = g.longitude_raw as f32 / g.scale[1] as f32;
    let altitude = g.altitude_raw as f32 / g.scale[2] as f32;
    let fix = (g.fix_raw as f32 / g.scale[8] as f32) as u32;
    assert!((latitude - 33.4055).abs() < 1e-3);
    assert!((longitude + 118.2943).abs() < 1e-3);
    assert!((altitude - 54.321).abs() < 1e-3);
    assert_eq!(fix, 3);
}

#[test]
fn gps9_requires_devc_tag() {
    let type_rec = record(b"TYPE", b'c', 1, 9, b"lllllllSS");
    let strm = nested(b"STRM", &[type_rec]);
    let other = nested(b"OTHR", &[strm]);
    let devc = parse_single_devc(&other);
    let err = GpmfSample::new(devc).unwrap_err();
    assert!(matches!(err, KlvError::StructureMismatch));
}

#[test]
fn gps9_requires_nested_devc() {
    let bytes = record(b"DEVC", b'L', 4, 1, &7u32.to_be_bytes());
    let devc = parse_single_devc(&bytes);
    let err = GpmfSample::new(devc).unwrap_err();
    assert!(matches!(err, KlvError::StructureMismatch));
}

#[test]
fn gps9_missing_stream_is_failure() {
    let strm = nested(b"STRM", &[record(b"ACCL", b'l', 4, 1, &1i32.to_be_bytes())]);
    let devc = nested(b"DEVC", &[strm]);
    let devc = parse_single_devc(&devc);
    let err = GpmfSample::new(devc).unwrap_err();
    assert!(matches!(err, KlvError::StructureMismatch));
}

#[test]
fn gps9_wrong_type_descriptor_is_failure() {
    let type_rec = record(b"TYPE", b'c', 1, 9, b"lllllllSs");
    let scal_rec = record(b"SCAL", b'l', 4, 9, &scal_payload(&[1; 9]));
    let gps9_rec = record(b"GPS9", b'?', 32, 1, &vec![0u8; 32]);
    let strm = nested(b"STRM", &[type_rec, scal_rec, gps9_rec]);
    let devc = parse_single_devc(&nested(b"DEVC", &[strm]));
    let err = GpmfSample::new(devc).unwrap_err();
    assert!(matches!(err, KlvError::StructureMismatch));
}

#[test]
fn gps9_wrong_scal_arity_is_failure() {
    let type_rec = record(b"TYPE", b'c', 1, 9, b"lllllllSS");
    let scal_rec = record(b"SCAL", b'l', 4, 8, &scal_payload(&[1; 8]));
    let gps9_rec = record(b"GPS9", b'?', 32, 1, &vec![0u8; 32]);
    let strm = nested(b"STRM", &[type_rec, scal_rec, gps9_rec]);
    let devc = parse_single_devc(&nested(b"DEVC", &[strm]));
    let err = GpmfSample::new(devc).unwrap_err();
    assert!(matches!(err, KlvError::StructureMismatch));
}

#[test]
fn gps9_picks_first_stream_with_gps9() {
    let plain_strm = nested(b"STRM", &[record(b"ACCL", b'l', 4, 1, &1i32.to_be_bytes())]);
    let type_rec = record(b"TYPE", b'c', 1, 9, b"lllllllSS");
    let scal_rec = record(
        b"SCAL",
        b'l',
        4,
        9,
        &scal_payload(&[1, 1, 1, 1, 1, 1, 1, 1, 1]),
    );
    let raw = gps9_payload(11, 22, 33, 44, 55, 66, 77, 8, 9);
    let gps9_rec = record(b"GPS9", b'?', 32, 1, &raw);
    let gps_strm = nested(b"STRM", &[type_rec, scal_rec, gps9_rec]);
    let devc = parse_single_devc(&nested(b"DEVC", &[plain_strm, gps_strm]));
    let sample = GpmfSample::new(devc).unwrap();
    assert_eq!(sample.gps9().latitude_raw, 11);
    assert_eq!(sample.gps9().fix_raw, 9);
    assert_eq!(sample.klvs().len(), 2);
}

#[test]
fn datetime_record_parses_pattern() {
    let bytes = record(b"TIME", b'U', 16, 1, b"241225123456.789");
    let mut klvs = Klv::from_reader(&bytes).unwrap();
    match klvs.remove(0).into_value() {
        Value::DateTime(dt) => {
            assert_eq!(
                dt,
                DateTime {
                    year: 2024,
                    month: 12,
                    day: 25,
                    hour: 12,
                    minute: 34,
                    second: 56,
                    nanosecond: 789_000_000,
                }
            );
        },
        other => panic!("expected a datetime, got {:?}", other),
    }
}

#[test]
fn datetime_century_window() {
    let bytes = record(b"TIME", b'U', 12, 1, b"690101000000");
    let mut klvs = Klv::from_reader(&bytes).unwrap();
    match klvs.remove(0).into_value() {
        Value::DateTime(dt) => {
            assert_eq!(dt.year, 1969);
            assert_eq!(dt.nanosecond, 0);
        },
        other => panic!("expected a datetime, got {:?}", other),
    }
}

#[test]
fn datetime_invalid_is_failure() {
    let bytes = record(b"TIME", b'U', 16, 1, b"24122512345x.789");
    let err = Klv::from_reader(&bytes).unwrap_err();
    assert!(matches!(err, KlvError::InvalidDateTime));
    let bytes = record(b"TIME", b'U', 16, 1, b"241325123456.789");
    let err = Klv::from_reader(&bytes).unwrap_err();
    assert!(matches!(err, KlvError::InvalidDateTime));
}

#[test]
fn sample_info_from_bytes() {
    let mut bytes = record(b"SKIP", b'L', 4, 1, &1u32.to_be_bytes());
    bytes.extend_from_slice(&sample_devc_bytes());
    let info = GpmfSampleInfo::from_bytes(
        &bytes,
        Some(Mp4SampleInfo { start_time: 42, duration: 33, rendering_offset: 0, is_sync: true }),
    )
    .unwrap();
    assert_eq!(info.gpmf_sample().gps9().fix_raw, 3);
    assert_eq!(info.mp4_sample_info().unwrap().start_time, 42);
}

#[test]
fn sample_info_without_devc_is_failure() {
    let bytes = record(b"SKIP", b'L', 4, 1, &1u32.to_be_bytes());
    let err = GpmfSampleInfo::from_bytes(&bytes, None).unwrap_err();
    assert!(matches!(err, KlvError::StructureMismatch));
}

fn info_at(start_time: u64) -> GpmfSampleInfo {
    GpmfSampleInfo {
        sample: GpmfSample {
            klvs: Vec::new(),
            gps9: Gps9 {
                latitude_raw: 0,
                longitude_raw: 0,
                altitude_raw: 0,
                speed_2d_raw: 0,
                speed_3d_raw: 0,
                days_since_2000_raw: 0,
                seconds_since_midnight_raw: 0,
                dop_raw: 0,
                fix_raw: 0,
                scale: vec![1; 9],
            },
        },
        mp4_sample_info: Some(Mp4SampleInfo {
            start_time,
            duration: 1,
            rendering_offset: 0,
            is_sync: true,
        }),
    }
}

#[test]
fn find_nearest_sample_picks_latest_at_or_before() {
    let track = GpmfTrack::new(vec![info_at(0), info_at(100), info_at(200)]);
    assert_eq!(track.gpmf_sample_infos().len(), 3);
    let hit = track.find_nearest_sample(150).unwrap();
    assert_eq!(hit.mp4_sample_info().unwrap().start_time, 100);
    let exact = track.find_nearest_sample(200).unwrap();
    assert_eq!(exact.mp4_sample_info().unwrap().start_time, 200);
    let first = track.find_nearest_sample(0).unwrap();
    assert_eq!(first.mp4_sample_info().unwrap().start_time, 0);
}

#[test]
fn find_nearest_sample_before_first_is_none() {
    let track = GpmfTrack::new(vec![info_at(10), info_at(20)]);
    assert!(track.find_nearest_sample(5).is_none());
    let empty = GpmfTrack::new(Vec::new());
    assert!(empty.find_nearest_sample(5).is_none());
}
