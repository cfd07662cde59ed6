use libremeet::models::{MeetingDetails, MeetingModel, MeetingTranscript, Transcript};
use libremeet::seconds::Seconds;
use libremeet::timestamp::Timestamp;

fn seconds(x: f64) -> Seconds {
    Seconds::from_bits(x.to_bits())
}

fn notation(s: i64, n: u32) -> Option<String> {
    Timestamp::new(s, n).map(|t| t.to_rfc3339())
}

#[test]
fn points_in_time_are_written_in_rfc_3339() {
    assert_eq!(notation(0, 0).as_deref(), Some("1970-01-01T00:00:00+00:00"));
    assert_eq!(notation(1_700_000_000, 0).as_deref(), Some("2023-11-14T22:13:20+00:00"));
    assert_eq!(notation(1_700_000_000, 123_000_000).as_deref(), Some("2023-11-14T22:13:20.123+00:00"));
    assert_eq!(notation(1_700_000_000, 5).as_deref(), Some("2023-11-14T22:13:20.000000005+00:00"));
    assert_eq!(notation(-1, 500_000_000).as_deref(), Some("1969-12-31T23:59:59.500+00:00"));
    // A leap second comes at the end of a minute only.
    assert_eq!(notation(59, 1_000_000_000).as_deref(), Some("1970-01-01T00:00:60+00:00"));
    assert_eq!(notation(-1, 1_500_000_000).as_deref(), Some("1969-12-31T23:59:60.500+00:00"));
}

#[test]
fn points_off_the_calendar_are_refused() {
    assert!(Timestamp::new(58, 1_000_000_000).is_none());
    assert!(Timestamp::new(59, 2_000_000_000).is_none());
    assert!(Timestamp::new(i64::MAX, 0).is_none());
    assert!(Timestamp::new(i64::MIN, 0).is_none());
}

#[test]
fn the_calendar_is_that_of_chrono() {
    let first = chrono::DateTime::<chrono::Utc>::MIN_UTC.timestamp();
    let last = chrono::DateTime::<chrono::Utc>::MAX_UTC.timestamp();
    for s in [first - 1, first, first + 59, -60, -61, -1, 0, 1, 59, 119, last - 1, last, last + 1] {
        for n in [0u32, 1, 999_999_999, 1_000_000_000, 1_999_999_999, 2_000_000_000, u32::MAX] {
            let want = chrono::DateTime::<chrono::Utc>::from_timestamp(s, n).map(|t| t.to_rfc3339());
            assert_eq!(notation(s, n), want, "{} {}", s, n);
        }
    }
}

#[test]
fn a_meeting_is_shown_with_its_segments() {
    let meeting = MeetingModel {
        id: "m1".into(),
        title: "Weekly".into(),
        created_at: Timestamp::new(0, 0).unwrap(),
        updated_at: Timestamp::new(60, 0).unwrap(),
        folder_path: Some("/tmp/x".into()),
        metadata: Some(r#"{"speakers":{"SPEAKER_00":"Alice"}}"#.into()),
    };
    let rows = vec![Transcript {
        id: "t1".into(),
        transcript: "hello".into(),
        timestamp: "00:01".into(),
        audio_start_time: Some(seconds(1.5)),
        audio_end_time: None,
        duration: Some(seconds(2.0)),
        speaker_id: Some("SPEAKER_00".into()),
    }];
    let d = MeetingDetails::from_rows(meeting, rows);
    assert_eq!(d.id, "m1");
    assert_eq!(d.title, "Weekly");
    assert_eq!(d.created_at, "1970-01-01T00:00:00+00:00");
    assert_eq!(d.updated_at, "1970-01-01T00:01:00+00:00");
    assert_eq!(d.transcripts.len(), 1);
    let t: &MeetingTranscript = &d.transcripts[0];
    assert_eq!(t.id, "t1");
    assert_eq!(t.text, "hello");
    assert_eq!(t.timestamp, "00:01");
    assert_eq!(t.audio_start_time.map(|s| s.to_bits()), Some(1.5f64.to_bits()));
    assert!(t.audio_end_time.is_none());
    assert_eq!(t.duration.map(|s| s.to_bits()), Some(2.0f64.to_bits()));
    assert_eq!(t.speaker_id.as_deref(), Some("SPEAKER_00"));
    let names = d.speaker_names.unwrap();
    assert_eq!(names.get("SPEAKER_00").map(|s| s.as_str()), Some("Alice"));
}
