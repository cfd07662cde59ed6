use libremeet::diarization::labels::{speaker_labels, unique_speakers};
use libremeet::diarization::overlap::DiarizationSegment;
use libremeet::seconds::Seconds;

fn segments(speakers: &[&str]) -> Vec<DiarizationSegment> {
    speakers
        .iter()
        .map(|s| DiarizationSegment {
            speaker_id: s.to_string(),
            start_sec: Seconds::zero(),
            end_sec: Seconds::zero(),
            text: String::new(),
        })
        .collect()
}

#[test]
fn speakers_are_sorted_and_listed_once() {
    let all = segments(&["SPEAKER_02", "SPEAKER_00", "SPEAKER_02", "SPEAKER_10", "SPEAKER_00", "a", ""]);
    assert_eq!(unique_speakers(&all), vec!["", "SPEAKER_00", "SPEAKER_02", "SPEAKER_10", "a"]);
    assert!(unique_speakers(&vec![]).is_empty());
}

#[test]
fn speakers_are_named_by_their_place() {
    let ids = unique_speakers(&segments(&["c", "a", "b", "a"]));
    let names = speaker_labels(&ids);
    assert_eq!(names.to_vec().len(), 3);
    assert_eq!(names.get("a").map(|s| s.as_str()), Some("Speaker 1"));
    assert_eq!(names.get("b").map(|s| s.as_str()), Some("Speaker 2"));
    assert_eq!(names.get("c").map(|s| s.as_str()), Some("Speaker 3"));
    assert_eq!(names.get("d"), None);
}

#[test]
fn names_differ_beyond_nine_speakers() {
    let speakers: Vec<String> = (0..25).map(|i| format!("SPEAKER_{:02}", i)).collect();
    let refs: Vec<&str> = speakers.iter().map(|s| s.as_str()).collect();
    let names = speaker_labels(&unique_speakers(&segments(&refs)));
    for (i, s) in speakers.iter().enumerate() {
        assert_eq!(names.get(s), Some(&format!("Speaker {}", i + 1)));
    }
}
