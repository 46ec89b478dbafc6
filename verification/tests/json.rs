use animato::recorder::AnimationRecorder;
use animato::json_format::{parse_json_tracks, write_json, Fixed6, JsonTrack, JsonTrackText};
use animato::recorder::RecorderError;

fn fixed(negative: bool, scaled: u64) -> Fixed6 {
    Fixed6 { negative, scaled }
}

#[test]
fn empty_export_is_empty_track_list() {
    assert_eq!(write_json(&Vec::new()), "{\"tracks\":[]}");
}

#[test]
fn writes_fixed_point_frames() {
    let tracks = vec![JsonTrack {
        label: "x".to_owned(),
        frames: vec![
            (fixed(false, 0), fixed(false, 0)),
            (fixed(false, 1_000_000), fixed(true, 12_345_678)),
            (fixed(false, 500_000), fixed(false, 7)),
        ],
    }];
    assert_eq!(
        write_json(&tracks),
        "{\"tracks\":[{\"label\":\"x\",\"frames\":[[0.000000,0.000000],[1.000000,-12.345678],[0.500000,0.000007]]}]}"
    );
}

#[test]
fn writes_several_tracks_and_escapes_labels() {
    let tracks = vec![
        JsonTrack { label: "a\"b\\c\nd\re\tf".to_owned(), frames: vec![] },
        JsonTrack { label: "y".to_owned(), frames: vec![(fixed(false, 2_000_000), fixed(false, 3_000_000))] },
    ];
    assert_eq!(
        write_json(&tracks),
        "{\"tracks\":[{\"label\":\"a\\\"b\\\\c\\nd\\re\\tf\",\"frames\":[]},{\"label\":\"y\",\"frames\":[[2.000000,3.000000]]}]}"
    );
}

#[test]
fn reads_back_labels_and_number_texts() {
    let tracks = vec![
        JsonTrack {
            label: "a\"b\\c\nd\re\tf".to_owned(),
            frames: vec![(fixed(false, 1_000_000), fixed(true, 250_000))],
        },
        JsonTrack { label: "".to_owned(), frames: vec![] },
    ];
    let text = write_json(&tracks);
    let parsed = parse_json_tracks(&text).expect("json import");
    assert_eq!(
        parsed,
        vec![
            JsonTrackText {
                label: "a\"b\\c\nd\re\tf".to_owned(),
                frames: vec![("1.000000".to_owned(), "-0.250000".to_owned())],
            },
            JsonTrackText { label: "".to_owned(), frames: vec![] },
        ]
    );
}

#[test]
fn reads_json_with_whitespace_and_trailing_commas() {
    let text = " { \"tracks\" : [ { \"label\" : \"x\" , \"frames\" : [ [ 0.5 , 1e3 ] , [1,2], ] } , ] } ";
    let parsed = parse_json_tracks(text).expect("json import");
    assert_eq!(
        parsed,
        vec![JsonTrackText {
            label: "x".to_owned(),
            frames: vec![
                ("0.5".to_owned(), "1e3".to_owned()),
                ("1".to_owned(), "2".to_owned()),
            ],
        }]
    );
}

#[test]
fn rejects_json_without_tracks() {
    assert_eq!(parse_json_tracks("{}"), Err(RecorderError::InvalidJson));
    assert_eq!(parse_json_tracks(""), Err(RecorderError::InvalidJson));
}

#[test]
fn rejects_unterminated_label() {
    assert_eq!(
        parse_json_tracks("{\"tracks\":[{\"label\":\"abc"),
        Err(RecorderError::InvalidJson)
    );
}

#[test]
fn rejects_unknown_escape() {
    assert_eq!(
        parse_json_tracks("{\"tracks\":[{\"label\":\"a\\qb\",\"frames\":[]}]}"),
        Err(RecorderError::InvalidJson)
    );
}

#[test]
fn rejects_missing_frame_separator() {
    assert_eq!(
        parse_json_tracks("{\"tracks\":[{\"label\":\"x\",\"frames\":[[1 2]]}]}"),
        Err(RecorderError::InvalidJson)
    );
}

#[test]
fn recorder_round_trips_json_and_replays() {
    let mut recorder = AnimationRecorder::new();
    recorder.start();
    recorder.record("x", 0.0f32.to_bits(), 0.0f64.to_bits());
    recorder.record("x", 1.0f32.to_bits(), 10.0f64.to_bits());
    let tracks: Vec<JsonTrack> = recorder
        .tracks()
        .iter()
        .map(|track| JsonTrack {
            label: track.label.clone(),
            frames: track
                .samples
                .iter()
                .map(|s| {
                    let time = f32::from_bits(s.time_bits) as f64;
                    let value = f64::from_bits(s.value_bits);
                    (fixed(false, (time * 1_000_000.0 + 0.5) as u64), fixed(false, (value * 1_000_000.0 + 0.5) as u64))
                })
                .collect(),
        })
        .collect();
    let json = write_json(&tracks);
    let imported = parse_json_tracks(&json).expect("json import");
    assert_eq!(
        imported,
        vec![JsonTrackText {
            label: "x".to_owned(),
            frames: vec![
                ("0.000000".to_owned(), "0.000000".to_owned()),
                ("1.000000".to_owned(), "10.000000".to_owned()),
            ],
        }]
    );
}
