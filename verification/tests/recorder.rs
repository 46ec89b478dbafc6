use animato::recorder::{AnimationRecorder, RecordedSample, RecordedTrack, RecorderError};

fn sample(time: f32, value: f64) -> RecordedSample {
    RecordedSample { time_bits: time.to_bits(), value_bits: value.to_bits() }
}

fn times(track: &RecordedTrack) -> Vec<f32> {
    track.samples.iter().map(|s| f32::from_bits(s.time_bits)).collect()
}

#[test]
fn new_recorder_is_inactive_and_ignores_samples() {
    let mut recorder = AnimationRecorder::new();
    assert!(!recorder.is_recording());
    recorder.record("x", 0.0f32.to_bits(), 1.0f64.to_bits());
    assert!(recorder.tracks().is_empty());
}

#[test]
fn start_and_stop_toggle_recording() {
    let mut recorder = AnimationRecorder::new();
    recorder.start();
    assert!(recorder.is_recording());
    recorder.record("x", 0.0f32.to_bits(), 1.0f64.to_bits());
    recorder.stop();
    assert!(!recorder.is_recording());
    recorder.record("x", 1.0f32.to_bits(), 2.0f64.to_bits());
    assert_eq!(recorder.tracks().len(), 1);
    assert_eq!(recorder.tracks()[0].samples, vec![sample(0.0, 1.0)]);
}

#[test]
fn records_samples_in_time_order() {
    let mut recorder = AnimationRecorder::new();
    recorder.start();
    recorder.record("x", 1.0f32.to_bits(), 10.0f64.to_bits());
    recorder.record("x", 0.0f32.to_bits(), 0.0f64.to_bits());
    recorder.record("x", 0.5f32.to_bits(), 5.0f64.to_bits());
    let track = &recorder.tracks()[0];
    assert_eq!(track.label, "x");
    assert_eq!(times(track), vec![0.0, 0.5, 1.0]);
    assert_eq!(track.samples[1], sample(0.5, 5.0));
}

#[test]
fn sample_at_same_time_is_replaced() {
    let mut recorder = AnimationRecorder::new();
    recorder.start();
    recorder.record("x", 1.0f32.to_bits(), 10.0f64.to_bits());
    recorder.record("x", 1.0f32.to_bits(), 20.0f64.to_bits());
    assert_eq!(recorder.tracks()[0].samples, vec![sample(1.0, 20.0)]);
}

#[test]
fn tracks_are_kept_per_label_in_first_use_order() {
    let mut recorder = AnimationRecorder::new();
    recorder.start();
    recorder.record("b", 0.0f32.to_bits(), 1.0f64.to_bits());
    recorder.record("a", 0.0f32.to_bits(), 2.0f64.to_bits());
    recorder.record("b", 1.0f32.to_bits(), 3.0f64.to_bits());
    let labels: Vec<&str> = recorder.tracks().iter().map(|t| t.label.as_str()).collect();
    assert_eq!(labels, vec!["b", "a"]);
    assert_eq!(recorder.tracks()[0].samples.len(), 2);
    assert_eq!(recorder.find_track("a"), Some(1));
    assert_eq!(recorder.find_track("c"), None);
}

#[test]
fn negative_time_is_recorded_as_zero() {
    let mut recorder = AnimationRecorder::new();
    recorder.start();
    recorder.record("x", (-2.5f32).to_bits(), 1.0f64.to_bits());
    assert_eq!(recorder.tracks()[0].samples, vec![sample(0.0, 1.0)]);
    assert_eq!(recorder.tracks()[0].samples[0].time_bits, 0);
}

#[test]
fn non_finite_samples_are_ignored() {
    let mut recorder = AnimationRecorder::new();
    recorder.start();
    recorder.record("x", f32::NAN.to_bits(), 1.0f64.to_bits());
    recorder.record("x", f32::INFINITY.to_bits(), 1.0f64.to_bits());
    recorder.record("x", 0.0f32.to_bits(), f64::NAN.to_bits());
    recorder.record("x", 0.0f32.to_bits(), f64::NEG_INFINITY.to_bits());
    assert!(recorder.tracks().is_empty());
}

#[test]
fn clear_removes_tracks_and_keeps_state() {
    let mut recorder = AnimationRecorder::new();
    recorder.start();
    recorder.record("x", 0.0f32.to_bits(), 1.0f64.to_bits());
    recorder.clear();
    assert!(recorder.tracks().is_empty());
    assert!(recorder.is_recording());
}

#[test]
fn binary_export_has_documented_layout() {
    let mut recorder = AnimationRecorder::new();
    recorder.start();
    recorder.record("ab", 1.0f32.to_bits(), 2.0f64.to_bits());
    let bytes = recorder.export_binary();
    let mut expected = b"ANIMREC1".to_vec();
    expected.extend_from_slice(&1u32.to_le_bytes());
    expected.extend_from_slice(&2u32.to_le_bytes());
    expected.extend_from_slice(b"ab");
    expected.extend_from_slice(&1u32.to_le_bytes());
    expected.extend_from_slice(&1.0f32.to_le_bytes());
    expected.extend_from_slice(&2.0f64.to_le_bytes());
    assert_eq!(bytes, expected);
}

#[test]
fn empty_recorder_exports_header_only() {
    let recorder = AnimationRecorder::new();
    let mut expected = b"ANIMREC1".to_vec();
    expected.extend_from_slice(&0u32.to_le_bytes());
    assert_eq!(recorder.export_binary(), expected);
}

#[test]
fn binary_round_trip_keeps_tracks() {
    let mut recorder = AnimationRecorder::new();
    recorder.start();
    recorder.record("scale", 0.0f32.to_bits(), 1.0f64.to_bits());
    recorder.record("scale", 1.0f32.to_bits(), 2.0f64.to_bits());
    recorder.record("héllo", 0.25f32.to_bits(), (-3.5f64).to_bits());
    let binary = recorder.export_binary();
    let imported = AnimationRecorder::import_binary(&binary).expect("binary import");
    assert!(!imported.is_recording());
    assert_eq!(imported.tracks(), recorder.tracks());
    assert_eq!(times(&imported.tracks()[0]), vec![0.0, 1.0]);
}

#[test]
fn binary_import_ignores_trailing_bytes() {
    let mut recorder = AnimationRecorder::new();
    recorder.start();
    recorder.record("x", 0.0f32.to_bits(), 1.0f64.to_bits());
    let mut binary = recorder.export_binary();
    binary.extend_from_slice(&[1, 2, 3]);
    let imported = AnimationRecorder::import_binary(&binary).expect("binary import");
    assert_eq!(imported.tracks(), recorder.tracks());
}

#[test]
fn binary_import_rejects_bad_magic() {
    let mut bytes = b"ANIMREC2".to_vec();
    bytes.extend_from_slice(&0u32.to_le_bytes());
    assert_eq!(AnimationRecorder::import_binary(&bytes), Err(RecorderError::InvalidBinary));
    assert_eq!(AnimationRecorder::import_binary(b"ANIM"), Err(RecorderError::InvalidBinary));
}

#[test]
fn binary_import_rejects_truncated_input() {
    let mut recorder = AnimationRecorder::new();
    recorder.start();
    recorder.record("x", 0.0f32.to_bits(), 1.0f64.to_bits());
    let binary = recorder.export_binary();
    for len in 0..binary.len() {
        assert_eq!(
            AnimationRecorder::import_binary(&binary[..len]),
            Err(RecorderError::InvalidBinary),
            "prefix of length {len}"
        );
    }
}

#[test]
fn binary_import_rejects_invalid_utf8_label() {
    let mut bytes = b"ANIMREC1".to_vec();
    bytes.extend_from_slice(&1u32.to_le_bytes());
    bytes.extend_from_slice(&2u32.to_le_bytes());
    bytes.extend_from_slice(&[0xff, 0xfe]);
    bytes.extend_from_slice(&0u32.to_le_bytes());
    assert_eq!(AnimationRecorder::import_binary(&bytes), Err(RecorderError::InvalidUtf8));
}

#[test]
fn unsorted_tracks_are_sorted_stably_by_time() {
    let track = RecordedTrack {
        label: "x".to_owned(),
        samples: vec![sample(2.0, 1.0), sample(1.0, 2.0), sample(2.0, 3.0), sample(0.0, 4.0)],
    };
    let recorder = AnimationRecorder::from_unsorted_tracks(vec![track]);
    assert!(!recorder.is_recording());
    assert_eq!(
        recorder.tracks()[0].samples,
        vec![sample(0.0, 4.0), sample(1.0, 2.0), sample(2.0, 1.0), sample(2.0, 3.0)]
    );
}

#[test]
fn unsorted_tracks_order_negative_times_first() {
    let track = RecordedTrack {
        label: "x".to_owned(),
        samples: vec![sample(1.0, 1.0), sample(-1.0, 2.0), sample(0.0, 3.0), sample(-0.0, 4.0)],
    };
    let recorder = AnimationRecorder::from_unsorted_tracks(vec![track]);
    assert_eq!(
        recorder.tracks()[0].samples,
        vec![sample(-1.0, 2.0), sample(-0.0, 4.0), sample(0.0, 3.0), sample(1.0, 1.0)]
    );
}

#[test]
fn recorder_errors_have_messages() {
    assert_eq!(RecorderError::InvalidJson.message(), "invalid recorder JSON");
    assert_eq!(RecorderError::InvalidBinary.message(), "invalid recorder binary");
    assert_eq!(RecorderError::InvalidUtf8.message(), "invalid recorder UTF-8");
}

#[test]
fn recorder_round_trips_binary() {
    let mut recorder = AnimationRecorder::new();
    recorder.start();
    recorder.record("scale", 0.0f32.to_bits(), 1.0f64.to_bits());
    recorder.record("scale", 1.0f32.to_bits(), 2.0f64.to_bits());
    let binary = recorder.export_binary();
    let imported = AnimationRecorder::import_binary(&binary).expect("binary import");
    assert_eq!(imported.tracks(), recorder.tracks());
    assert_eq!(imported.tracks()[0].samples, vec![sample(0.0, 1.0), sample(1.0, 2.0)]);
}
