use libremeet::diarization::overlap::{
    assign_speakers_by_overlap, transcript_range, DiarizationSegment,
};
use libremeet::models::Transcript;
use libremeet::seconds::Seconds;

fn seconds(x: f64) -> Seconds {
    Seconds::from_bits(x.to_bits())
}

fn segment(speaker_id: &str, start: f64, end: f64, text: &str) -> DiarizationSegment {
    DiarizationSegment {
        speaker_id: speaker_id.into(),
        start_sec: seconds(start),
        end_sec: seconds(end),
        text: text.into(),
    }
}

fn range(id: &str, start: f64, end: f64) -> (String, Seconds, Seconds) {
    (id.into(), seconds(start), seconds(end))
}

fn speaker(diarization: &[DiarizationSegment], start: f64, end: f64) -> String {
    let r = assign_speakers_by_overlap(diarization, &[range("t", start, end)]);
    assert_eq!(r.len(), 1);
    assert_eq!(r[0].0, "t");
    r[0].1.clone()
}

#[test]
fn test_assign_speakers_by_overlap() {
    let diarization = vec![
        segment("SPEAKER_00", 0.0, 5.0, "Hello"),
        segment("SPEAKER_01", 5.0, 10.0, "Hi"),
    ];

    let transcript_ranges = vec![
        range("t1", 1.0, 3.0), // fully inside SPEAKER_00
        range("t2", 6.0, 8.0), // fully inside SPEAKER_01
        range("t3", 4.0, 6.0), // overlaps both, 1s with 00, 1s with 01 -> first wins
    ];

    let result = assign_speakers_by_overlap(&diarization, &transcript_ranges);
    assert_eq!(result[0].1, "SPEAKER_00");
    assert_eq!(result[1].1, "SPEAKER_01");
    // t3: overlap with 00 (4..5=1s) and 01 (5..6=1s), both equal, first (SPEAKER_00) wins
    assert_eq!(result[2].1, "SPEAKER_00");
}

#[test]
fn every_range_keeps_its_id_and_place() {
    let diarization = vec![segment("A", 0.0, 1.0, "")];
    let ranges = vec![range("x", 0.0, 1.0), range("y", 5.0, 6.0), range("x", 0.5, 2.0)];
    let r = assign_speakers_by_overlap(&diarization, &ranges);
    let expected = [("x", "A"), ("y", "SPEAKER_UNKNOWN"), ("x", "A")];
    assert_eq!(r.len(), 3);
    for (got, want) in r.iter().zip(expected.iter()) {
        assert_eq!((got.0.as_str(), got.1.as_str()), *want);
    }
    assert!(assign_speakers_by_overlap(&diarization, &[]).is_empty());
}

#[test]
fn without_shared_time_the_speaker_is_unknown() {
    assert_eq!(speaker(&[], 0.0, 10.0), "SPEAKER_UNKNOWN");
    let one = [segment("A", 2.0, 4.0, "")];
    // Touching ends share no time.
    assert_eq!(speaker(&one, 0.0, 2.0), "SPEAKER_UNKNOWN");
    assert_eq!(speaker(&one, 4.0, 5.0), "SPEAKER_UNKNOWN");
    // Nor does a range without a length, or one that ends before it starts.
    assert_eq!(speaker(&one, 3.0, 3.0), "SPEAKER_UNKNOWN");
    assert_eq!(speaker(&one, 3.5, 2.5), "SPEAKER_UNKNOWN");
    // The least shared time counts.
    assert_eq!(speaker(&one, 0.0, f64::from_bits(2.0f64.to_bits() + 1)), "A");
}

#[test]
fn the_longest_shared_time_wins() {
    let all = [
        segment("A", 0.0, 3.0, ""),
        segment("B", 2.0, 9.0, ""),
        segment("C", 0.0, 10.0, ""),
    ];
    assert_eq!(speaker(&all, 0.0, 3.0), "A");
    assert_eq!(speaker(&all, 2.5, 8.0), "B");
    assert_eq!(speaker(&all, 0.0, 10.0), "C");
    // One that contains the range shares most.
    assert_eq!(speaker(&all[1..], 1.0, 9.5), "C");
}

#[test]
fn times_that_are_no_numbers_are_passed_over() {
    let nan = f64::NAN;
    // A start or an end that is no number does not bound the shared time.
    assert_eq!(speaker(&[segment("A", nan, 4.0, "")], 1.0, 3.0), "A");
    assert_eq!(speaker(&[segment("A", 0.0, nan, "")], 1.0, 3.0), "A");
    assert_eq!(speaker(&[segment("A", 0.0, 4.0, "")], nan, nan), "A");
    assert_eq!(speaker(&[segment("A", nan, nan, "")], nan, nan), "SPEAKER_UNKNOWN");
    let inf = f64::INFINITY;
    assert_eq!(speaker(&[segment("A", -inf, inf, "")], 0.0, 1.0), "A");
    assert_eq!(speaker(&[segment("A", 0.0, 1.0, ""), segment("B", -inf, inf, "")], -inf, inf), "B");
    assert_eq!(speaker(&[segment("A", inf, inf, "")], 0.0, inf), "SPEAKER_UNKNOWN");
}

#[test]
fn shared_time_agrees_with_floating_point() {
    let values = [
        0.0,
        -0.0,
        0.1,
        0.2,
        0.30000000000000004,
        1.0 / 3.0,
        1.5,
        2.0,
        2.0000000000000004,
        1e16,
        1e-310,
        5e-324,
        f64::MAX,
        -3.25,
        f64::NAN,
        f64::INFINITY,
        f64::NEG_INFINITY,
    ];
    for &a in &values {
        for &b in &values {
            for &c in &values {
                for &d in &values {
                    let shared = (b.min(d) - a.max(c)).max(0.0);
                    let want = if shared > 0.0 { "A" } else { "SPEAKER_UNKNOWN" };
                    assert_eq!(speaker(&[segment("A", c, d, "")], a, b), want);
                }
            }
        }
    }
}

fn row(start: Option<f64>, end: Option<f64>, duration: Option<f64>) -> Transcript {
    Transcript {
        id: "t".into(),
        transcript: String::new(),
        timestamp: String::new(),
        audio_start_time: start.map(seconds),
        audio_end_time: end.map(seconds),
        duration: duration.map(seconds),
        speaker_id: None,
    }
}

fn covered(start: Option<f64>, end: Option<f64>, duration: Option<f64>) -> (f64, f64) {
    let (id, a, b) = transcript_range(&row(start, end, duration));
    assert_eq!(id, "t");
    (f64::from_bits(a.to_bits()), f64::from_bits(b.to_bits()))
}

#[test]
fn a_stored_segment_covers_its_stretch() {
    assert_eq!(covered(Some(1.0), Some(4.5), Some(9.0)), (1.0, 4.5));
    assert_eq!(covered(Some(1.0), None, Some(9.0)), (1.0, 10.0));
    assert_eq!(covered(Some(0.1), None, Some(0.2)), (0.1, 0.30000000000000004));
    assert_eq!(covered(Some(1.0), None, None), (1.0, 3.0));
    assert_eq!(covered(None, Some(4.0), None), (0.0, 4.0));
    assert_eq!(covered(None, None, Some(0.5)), (0.0, 0.5));
    assert_eq!(covered(None, None, None), (0.0, 2.0));
}
