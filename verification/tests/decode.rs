use tcx_report::flatten::to_data_vec;
use tcx_report::parse::decode_document;
use tcx_report::parse::decode_trackpoint;
use tcx_report::parse::parse_u16;
use tcx_report::parse::FormatError;
use tcx_report::parse::RawActivity;
use tcx_report::parse::RawDocument;
use tcx_report::parse::RawLap;
use tcx_report::parse::RawTrack;
use tcx_report::parse::RawTrackpoint;
use tcx_report::timestamp::encode_timestamp;
use tcx_report::timestamp::parse_timestamp;
use tcx_report::timestamp::Timestamp;

fn raw(time: Option<&str>, hr: Option<&str>, watts: Option<&str>) -> RawTrackpoint {
    RawTrackpoint {
        time: time.map(|s| s.as_bytes().to_vec()),
        heart_rate: hr.map(|s| s.as_bytes().to_vec()),
        watts: watts.map(|s| s.as_bytes().to_vec()),
    }
}

#[test]
fn timestamp_parses_the_fixed_pattern() {
    let t = parse_timestamp(&b"2023-04-05T06:07:08Z".to_vec()).unwrap();
    assert_eq!(
        t,
        Timestamp { year: 2023, month: 4, day: 5, hour: 6, minute: 7, second: 8, millis: 0 }
    );
    let t = parse_timestamp(&b"2023-04-05T06:07:08.5Z".to_vec()).unwrap();
    assert_eq!(t.millis, 500);
    let t = parse_timestamp(&b"2023-04-05T06:07:08.055Z".to_vec()).unwrap();
    assert_eq!(t.millis, 55);
}

#[test]
fn timestamp_rejects_malformed_text() {
    assert!(parse_timestamp(&b"2023-04-05 06:07:08Z".to_vec()).is_none());
    assert!(parse_timestamp(&b"2023-04-05T06:07:08".to_vec()).is_none());
    assert!(parse_timestamp(&b"2023-13-05T06:07:08Z".to_vec()).is_none());
    assert!(parse_timestamp(&b"2023-02-29T06:07:08Z".to_vec()).is_none());
    assert!(parse_timestamp(&b"2024-02-29T06:07:08Z".to_vec()).is_some());
    assert!(parse_timestamp(&b"2023-04-31T06:07:08Z".to_vec()).is_none());
    assert!(parse_timestamp(&b"2023-04-05T24:07:08Z".to_vec()).is_none());
    assert!(parse_timestamp(&b"not a time".to_vec()).is_none());
}

#[test]
fn timestamp_round_trips() {
    for s in [
        "2023-04-05T06:07:08Z",
        "0000-01-01T00:00:00Z",
        "9999-12-31T23:59:59.999Z",
        "1970-01-01T00:00:00Z",
    ] {
        let t = parse_timestamp(&s.as_bytes().to_vec()).unwrap();
        let back = encode_timestamp(&t);
        assert_eq!(back, s.as_bytes().to_vec());
    }
    // A short fraction re-encodes canonically, as the same instant.
    let t = parse_timestamp(&b"2023-04-05T06:07:08.5Z".to_vec()).unwrap();
    assert_eq!(encode_timestamp(&t), b"2023-04-05T06:07:08.500Z".to_vec());
    let again = parse_timestamp(&encode_timestamp(&t)).unwrap();
    assert_eq!(again, t);
}

#[test]
fn epoch_milliseconds_of_the_unix_epoch() {
    let t = parse_timestamp(&b"1970-01-01T00:00:00Z".to_vec()).unwrap();
    // 719528 days from 0000-01-01 to 1970-01-01.
    assert_eq!(t.epoch_millis(), 719_528u64 * 86_400_000);
    let u = parse_timestamp(&b"1970-01-01T00:00:10.250Z".to_vec()).unwrap();
    assert_eq!(u.epoch_millis() - t.epoch_millis(), 10_250);
}

#[test]
fn integer_fields_parse_strictly() {
    assert_eq!(parse_u16(&b"0".to_vec()), Some(0));
    assert_eq!(parse_u16(&b"000123".to_vec()), Some(123));
    assert_eq!(parse_u16(&b"65535".to_vec()), Some(65535));
    assert_eq!(parse_u16(&b"65536".to_vec()), None);
    assert_eq!(parse_u16(&b"999999999999".to_vec()), None);
    assert_eq!(parse_u16(&b"".to_vec()), None);
    assert_eq!(parse_u16(&b"12a".to_vec()), None);
    assert_eq!(parse_u16(&b"-5".to_vec()), None);
}

#[test]
fn absent_optional_fields_are_not_errors() {
    let t = decode_trackpoint(&raw(None, None, None)).unwrap();
    assert!(t.time.is_none());
    assert!(t.heart_rate_bpm.is_none());
    assert!(t.extensions.is_none());

    let t = decode_trackpoint(&raw(Some("2023-04-05T06:07:08Z"), Some("140"), Some("250")))
        .unwrap();
    assert_eq!(t.time.unwrap().year, 2023);
    assert_eq!(t.heart_rate_bpm, Some(140));
    assert_eq!(t.extensions.unwrap().tpx.watts, 250);
}

#[test]
fn malformed_present_fields_fail_naming_the_field() {
    let e = decode_trackpoint(&raw(Some("2023-04-05T06:07"), Some("140"), None)).unwrap_err();
    assert_eq!(e, FormatError::Timestamp);
    let e = decode_trackpoint(&raw(None, Some("abc"), None)).unwrap_err();
    assert_eq!(e, FormatError::HeartRate);
    let e = decode_trackpoint(&raw(None, Some("140"), Some("70000"))).unwrap_err();
    assert_eq!(e, FormatError::Power);
}

fn one_lap_doc(tps: Vec<RawTrackpoint>) -> RawDocument {
    RawDocument {
        activity: vec![RawActivity {
            lap: vec![RawLap { track: vec![RawTrack { trackpoints: tps }] }],
        }],
    }
}

#[test]
fn document_decode_walks_the_hierarchy() {
    let doc = one_lap_doc(vec![
        raw(Some("2023-04-05T06:07:08Z"), Some("100"), Some("150")),
        raw(Some("2023-04-05T06:07:18Z"), None, Some("200")),
    ]);
    let d = decode_document(&doc).unwrap();
    assert_eq!(d.activities.activity.len(), 1);
    assert_eq!(d.activities.activity[0].lap.len(), 1);
    let tps = &d.activities.activity[0].lap[0].track[0].trackpoints;
    assert_eq!(tps.len(), 2);
    assert_eq!(tps[1].heart_rate_bpm, None);

    let bad = one_lap_doc(vec![raw(Some("2023-04-05T06:07:08Z"), Some("x"), None)]);
    assert_eq!(decode_document(&bad).unwrap_err(), FormatError::HeartRate);
}

#[test]
fn trackpoint_without_timestamp_contributes_to_neither_series() {
    let doc = one_lap_doc(vec![
        raw(Some("2023-04-05T06:07:08Z"), Some("100"), Some("150")),
        raw(None, Some("190"), Some("999")),
        raw(Some("2023-04-05T06:07:18Z"), Some("110"), Some("160")),
    ]);
    let d = decode_document(&doc).unwrap();
    let laps = to_data_vec(&d);
    assert_eq!(laps.len(), 1);
    assert_eq!(laps[0].hr_data.len(), 2);
    assert_eq!(laps[0].watt_data.len(), 2);
    assert_eq!(laps[0].hr_data[0].val, 100);
    assert_eq!(laps[0].hr_data[1].val, 110);
    assert_eq!(laps[0].hr_data[1].ts - laps[0].hr_data[0].ts, 10_000);
}

#[test]
fn sensors_populate_the_two_series_independently() {
    let doc = one_lap_doc(vec![
        raw(Some("2023-04-05T06:07:08Z"), Some("100"), None),
        raw(Some("2023-04-05T06:07:09Z"), None, Some("150")),
        raw(Some("2023-04-05T06:07:10Z"), Some("110"), Some("160")),
    ]);
    let d = decode_document(&doc).unwrap();
    let laps = to_data_vec(&d);
    assert_eq!(laps[0].hr_data.len(), 2);
    assert_eq!(laps[0].watt_data.len(), 2);
    assert_eq!(laps[0].watt_data[0].val, 150);
}

#[test]
fn whole_pipeline_selects_and_reports() {
    let lap = |hrs: [(u8, &str); 2]| RawLap {
        track: vec![RawTrack {
            trackpoints: hrs
                .iter()
                .map(|(sec, hr)| {
                    raw(Some(&format!("2023-04-05T06:07:0{}Z", sec)), Some(hr), None)
                })
                .collect(),
        }],
    };
    let doc = RawDocument {
        activity: vec![RawActivity {
            lap: vec![
                lap([(0, "100"), (2, "110")]),
                lap([(0, "120"), (4, "130")]),
                lap([(0, "140"), (6, "150")]),
            ],
        }],
    };
    let d = decode_document(&doc).unwrap();
    let rows = tcx_report::report::lap_report(&d, &vec![2]).unwrap();
    assert_eq!(rows.len(), 1);
    assert_eq!(rows[0], b" 2\t00:04\t-\t125\t130".to_vec());
}

#[test]
fn tracks_of_a_lap_form_one_run() {
    let doc = RawDocument {
        activity: vec![RawActivity {
            lap: vec![RawLap {
                track: vec![
                    RawTrack {
                        trackpoints: vec![raw(Some("2023-04-05T06:07:08Z"), Some("100"), None)],
                    },
                    RawTrack {
                        trackpoints: vec![raw(Some("2023-04-05T06:07:18Z"), Some("120"), None)],
                    },
                ],
            }],
        }],
    };
    let d = decode_document(&doc).unwrap();
    let laps = to_data_vec(&d);
    assert_eq!(laps.len(), 1);
    assert_eq!(laps[0].hr_data.len(), 2);
    assert_eq!(laps[0].hr_data[1].val, 120);
}
