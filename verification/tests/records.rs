use field_recorder::codec::{
    decode_amplitude, decode_fix_field, decode_fixes, decode_window, encode_amplitude,
    encode_fix_field, encode_record,
};
use field_recorder::controller::{CycleOutcome, Pipeline};
use field_recorder::config::PipelineConfig;
use field_recorder::position::PositionFix;

#[test]
fn amplitude_bytes_are_big_endian() {
    let mut out: Vec<u8> = Vec::new();
    encode_amplitude(0x01_02_03_04, &mut out);
    assert_eq!(out, vec![0x01, 0x02, 0x03, 0x04]);
}

#[test]
fn amplitude_round_trips_through_bytes() {
    for a in [0i64, 1, -1, 1000, -1000, 0x7FFF_FFFF, -0x8000_0000] {
        let mut out: Vec<u8> = Vec::new();
        encode_amplitude(a, &mut out);
        assert_eq!(decode_amplitude(&out, 0), a);
    }
}

#[test]
fn fix_field_round_trips_through_bytes() {
    for f in [0i64, 1, -1, 180_000_000, -90_000_000, 1_000_000_000_000, -1_000_000_000_000] {
        let mut out: Vec<u8> = Vec::new();
        encode_fix_field(f, &mut out);
        assert_eq!(out.len(), 8);
        assert_eq!(decode_fix_field(&out, 0), f);
    }
}

#[test]
fn record_layout_is_window_then_quadruples() {
    let w = vec![1000i64, -2000, 3000];
    let fixes = vec![
        PositionFix { time: 1, longitude: 2, latitude: 3, altitude: 4 },
        PositionFix { time: -5, longitude: -6, latitude: -7, altitude: -8 },
    ];
    let bytes = encode_record(&w, &fixes);
    assert_eq!(bytes.len(), 4 * 3 + 32 * 2);
    // amplitudes first, in window order
    assert_eq!(decode_amplitude(&bytes, 0), 1000);
    assert_eq!(decode_amplitude(&bytes, 4), -2000);
    assert_eq!(decode_amplitude(&bytes, 8), 3000);
    // then each fix as time, altitude, longitude, latitude
    assert_eq!(decode_fix_field(&bytes, 12), 1);
    assert_eq!(decode_fix_field(&bytes, 20), 4);
    assert_eq!(decode_fix_field(&bytes, 28), 2);
    assert_eq!(decode_fix_field(&bytes, 36), 3);
}

#[test]
fn record_round_trips_bit_for_bit() {
    let w = vec![0i64, 999, -999, 123456, -654321];
    let fixes = vec![
        PositionFix { time: 1700000000000, longitude: -122419400, latitude: 37774900, altitude: 52000 },
        PositionFix { time: 1700000000500, longitude: -122419350, latitude: 37774925, altitude: 52100 },
    ];
    let bytes = encode_record(&w, &fixes);
    assert_eq!(decode_window(&bytes, w.len()), w);
    assert_eq!(decode_fixes(&bytes, 4 * w.len(), fixes.len()), fixes);
}

#[test]
fn persisted_record_decodes_to_its_window_and_fixes() {
    // An end-to-end trigger: the stored bytes reproduce the filtered window
    // and every collected fix, in order.
    let cfg = PipelineConfig::new(4, 3, 0, 44100, 1000, 500).unwrap();
    let mut p = Pipeline::new(cfg);
    let raw = vec![4000i64, 8000, 8000, 4000];
    match p.run_cycle(&raw).unwrap() {
        CycleOutcome::Persisted(rec) => {
            assert_eq!(rec.key_samples, 0);
            assert_eq!(rec.fixes.len(), 3);
            assert_eq!(rec.bytes.len(), 4 * 4 + 32 * 3);
            assert_eq!(decode_window(&rec.bytes, 4), rec.amplitudes);
            assert_eq!(decode_fixes(&rec.bytes, 16, 3), rec.fixes);
        }
        CycleOutcome::Advanced => panic!("threshold zero must trigger"),
    }
    assert_eq!(p.time_base_samples(), 4);
}
